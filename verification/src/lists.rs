//! Comma-separated lists, the form in which the store keeps the online players
//! and the addresses of a player group.
use vstd::prelude::*;
use crate::text::{push_char, push_str, same_text, string_of};

verus! {

/// `str::split(',')`: the pieces between commas, the empty string giving one empty piece.
pub open spec fn split_commas(s: Seq<char>) -> Seq<Seq<char>>
    decreases s.len(),
{
    if s.len() == 0 {
        seq![Seq::<char>::empty()]
    } else {
        let r = split_commas(s.drop_last());
        if s.last() == ',' {
            r.push(Seq::<char>::empty())
        } else {
            r.update(r.len() - 1, r.last().push(s.last()))
        }
    }
}

/// `[&str]::join(",")`.
pub open spec fn join_commas(parts: Seq<Seq<char>>) -> Seq<char>
    decreases parts.len(),
{
    if parts.len() == 0 {
        Seq::<char>::empty()
    } else if parts.len() == 1 {
        parts[0]
    } else {
        join_commas(parts.drop_last()) + seq![','] + parts.last()
    }
}

/// The position of the first piece equal to `x`, or `parts.len()` when there is none.
pub open spec fn first_position(parts: Seq<Seq<char>>, x: Seq<char>) -> int
    decreases parts.len(),
{
    if parts.len() == 0 {
        0
    } else if parts[0] == x {
        0
    } else {
        1 + first_position(parts.drop_first(), x)
    }
}

/// A stored list holds `x`: it is not empty and one of its pieces is `x`.
pub open spec fn list_holds(data: Seq<char>, x: Seq<char>) -> bool {
    data.len() > 0 && split_commas(data).contains(x)
}

/// The value a list takes when `x` joins it, or `None` when it already holds `x`.
pub open spec fn list_with_spec(data: Seq<char>, x: Seq<char>) -> Option<Seq<char>> {
    if data.len() == 0 {
        Some(x)
    } else if split_commas(data).contains(x) {
        None
    } else {
        Some(data + seq![','] + x)
    }
}

/// The value a list takes when its first `x` leaves it, or `None` when it does not hold `x`.
pub open spec fn list_without_spec(data: Seq<char>, x: Seq<char>) -> Option<Seq<char>> {
    if list_holds(data, x) {
        let parts = split_commas(data);
        Some(join_commas(parts.remove(first_position(parts, x))))
    } else {
        None
    }
}

pub proof fn lemma_split_len(s: Seq<char>)
    ensures split_commas(s).len() >= 1,
    decreases s.len(),
{
    if s.len() > 0 {
        lemma_split_len(s.drop_last());
    }
}

pub proof fn lemma_first_position(parts: Seq<Seq<char>>, x: Seq<char>)
    ensures
        0 <= first_position(parts, x) <= parts.len(),
        first_position(parts, x) < parts.len() <==> parts.contains(x),
        first_position(parts, x) < parts.len() ==> parts[first_position(parts, x)] == x,
        forall|j: int| 0 <= j < first_position(parts, x) ==> parts[j] != x,
    decreases parts.len(),
{
    if parts.len() > 0 && parts[0] != x {
        let t = parts.drop_first();
        lemma_first_position(t, x);
        if parts.contains(x) {
            let k = choose|k: int| 0 <= k < parts.len() && parts[k] == x;
            assert(t[k - 1] == x);
        }
        if t.contains(x) {
            let k = choose|k: int| 0 <= k < t.len() && t[k] == x;
            assert(parts[k + 1] == x);
        }
        assert forall|j: int| 0 <= j < first_position(parts, x) implies parts[j] != x by {
            if j > 0 { assert(parts[j] == t[j - 1]); }
        }
    } else if parts.len() > 0 {
        assert(parts[0] == x);
    }
}

/// The pieces of `s`, as owned strings.
pub fn split_list(s: &str) -> (pieces: Vec<String>)
    ensures
        pieces@.len() == split_commas(s@).len(),
        forall|i: int| 0 <= i < pieces@.len() ==> #[trigger] pieces@[i]@ == split_commas(s@)[i],
{
    let n = s.unicode_len();
    let mut done: Vec<String> = Vec::new();
    let mut cur = String::new();
    let mut i: usize = 0;
    assert(s@.take(0) =~= Seq::<char>::empty());
    while i < n
        invariant
            n == s@.len(), i <= n,
            done@.len() + 1 == split_commas(s@.take(i as int)).len(),
            forall|j: int| 0 <= j < done@.len() ==> #[trigger] done@[j]@ == split_commas(s@.take(i as int))[j],
            cur@ == split_commas(s@.take(i as int)).last(),
        decreases n - i,
    {
        let c = s.get_char(i);
        let ghost before = s@.take(i as int);
        proof { lemma_split_len(before); }
        assert(s@.take(i + 1).drop_last() =~= before);
        if c == ',' {
            let piece = cur;
            done.push(piece);
            cur = String::new();
        } else {
            push_char(&mut cur, c);
        }
        i = i + 1;
    }
    assert(s@.take(n as int) =~= s@);
    done.push(cur);
    done
}

/// Joins `parts` with commas, as `[&str]::join(",")` does.
pub fn join_list(parts: &Vec<String>) -> (res: String)
    ensures res@ == join_commas(parts@.map_values(|p: String| p@)),
{
    let ghost views = parts@.map_values(|p: String| p@);
    let mut res = String::new();
    let mut i: usize = 0;
    while i < parts.len()
        invariant
            i <= parts@.len(), views == parts@.map_values(|p: String| p@),
            res@ == join_commas(views.take(i as int)),
        decreases parts@.len() - i,
    {
        if i > 0 {
            push_char(&mut res, ',');
        }
        push_str(&mut res, parts[i].as_str());
        proof {
            let t = views.take(i + 1);
            assert(t.drop_last() =~= views.take(i as int));
            if i == 0 {
                assert(t.len() == 1);
                assert(res@ =~= t[0]);
            } else {
                assert(res@ =~= join_commas(views.take(i as int)) + seq![','] + t.last());
            }
        }
        i = i + 1;
    }
    assert(views.take(parts@.len() as int) =~= views);
    res
}

/// Whether the stored list `data` holds `item`.
pub fn list_contains(data: &str, item: &str) -> (res: bool)
    ensures res == list_holds(data@, item@),
{
    if data.unicode_len() == 0 {
        return false;
    }
    let pieces = split_list(data);
    let ghost parts = split_commas(data@);
    let mut i: usize = 0;
    while i < pieces.len()
        invariant
            i <= pieces@.len(), pieces@.len() == parts.len(),
            data@.len() > 0,
            parts == split_commas(data@),
            forall|k: int| 0 <= k < pieces@.len() ==> #[trigger] pieces@[k]@ == parts[k],
            forall|j: int| 0 <= j < i ==> parts[j] != item@,
        decreases pieces@.len() - i,
    {
        if same_text(pieces[i].as_str(), item) {
            assert(parts[i as int] == item@);
            return true;
        }
        i = i + 1;
    }
    assert(!parts.contains(item@)) by {
        if parts.contains(item@) {
            let k = choose|k: int| 0 <= k < parts.len() && parts[k] == item@;
            assert(parts[k] != item@);
        }
    }
    false
}

/// The list after `item` joins it (`data,item`, or `item` alone when `data` is empty),
/// or `None` when it already holds `item`.
pub fn list_with(data: &str, item: &str) -> (res: Option<String>)
    ensures
        match list_with_spec(data@, item@) {
            Some(r) => res matches Some(s) && s@ == r,
            None => res is None,
        },
{
    if data.unicode_len() == 0 {
        return Some(string_of(item));
    }
    if list_contains(data, item) {
        return None;
    }
    let mut r = string_of(data);
    push_char(&mut r, ',');
    push_str(&mut r, item);
    Some(r)
}

/// The list after its first `item` leaves it, or `None` when it does not hold `item`.
pub fn list_without(data: &str, item: &str) -> (res: Option<String>)
    ensures
        match list_without_spec(data@, item@) {
            Some(r) => res matches Some(s) && s@ == r,
            None => res is None,
        },
{
    if data.unicode_len() == 0 {
        return None;
    }
    let mut pieces = split_list(data);
    let ghost parts = split_commas(data@);
    proof { lemma_first_position(parts, item@); }
    let mut i: usize = 0;
    while i < pieces.len()
        invariant
            i <= pieces@.len(), pieces@.len() == parts.len(),
            data@.len() > 0,
            parts == split_commas(data@),
            forall|k: int| 0 <= k < pieces@.len() ==> #[trigger] pieces@[k]@ == parts[k],
            forall|j: int| 0 <= j < i ==> parts[j] != item@,
        decreases pieces@.len() - i,
    {
        if same_text(pieces[i].as_str(), item) {
            assert(parts[i as int] == item@);
            proof { lemma_first_position(parts, item@); }
            assert(first_position(parts, item@) == i);
            let ghost before = pieces@;
            let _ = pieces.remove(i);
            let joined = join_list(&pieces);
            let ghost views = pieces@.map_values(|p: String| p@);
            let ghost rest = parts.remove(i as int);
            assert(views =~= rest) by {
                assert forall|k: int| 0 <= k < views.len() implies #[trigger] views[k] == rest[k] by {
                    if k < i { assert(pieces@[k] == before[k]); } else { assert(pieces@[k] == before[k + 1]); }
                }
            }
            return Some(joined);
        }
        i = i + 1;
    }
    assert(!parts.contains(item@)) by {
        if parts.contains(item@) {
            let k = choose|k: int| 0 <= k < parts.len() && parts[k] == item@;
            assert(parts[k] != item@);
        }
    }
    None
}

proof fn lemma_join_push(parts: Seq<Seq<char>>, e: Seq<char>)
    requires parts.len() >= 1,
    ensures join_commas(parts.push(e)) == join_commas(parts) + seq![','] + e,
{
    assert(parts.push(e).drop_last() =~= parts);
}

proof fn lemma_join_extend_last(parts: Seq<Seq<char>>, c: char)
    requires parts.len() >= 1,
    ensures
        join_commas(parts.update(parts.len() - 1, parts.last().push(c))) == join_commas(parts).push(c),
{
    let q = parts.update(parts.len() - 1, parts.last().push(c));
    if parts.len() == 1 {
        assert(q[0] == parts[0].push(c));
    } else {
        assert(q.drop_last() =~= parts.drop_last());
        assert(join_commas(q) =~= join_commas(parts).push(c));
    }
}

/// Splitting a list at its commas and joining the pieces again gives the list back.
pub proof fn lemma_join_split(s: Seq<char>)
    ensures join_commas(split_commas(s)) == s,
    decreases s.len(),
{
    if s.len() == 0 {
        assert(join_commas(seq![Seq::<char>::empty()]) =~= s);
    } else {
        let t = s.drop_last();
        lemma_join_split(t);
        lemma_split_len(t);
        let r = split_commas(t);
        if s.last() == ',' {
            lemma_join_push(r, Seq::<char>::empty());
            assert(join_commas(r) + seq![','] + Seq::<char>::empty() =~= s);
        } else {
            lemma_join_extend_last(r, s.last());
            assert(t.push(s.last()) =~= s);
        }
    }
}

/// Appending text without commas only lengthens the last piece.
proof fn lemma_split_append_plain(p: Seq<char>, b: Seq<char>)
    requires !b.contains(','),
    ensures
        split_commas(p + b) == split_commas(p).update(
            split_commas(p).len() - 1,
            split_commas(p).last() + b,
        ),
    decreases b.len(),
{
    lemma_split_len(p);
    if b.len() == 0 {
        assert(p + b =~= p);
        assert(split_commas(p).last() + b =~= split_commas(p).last());
        assert(split_commas(p).update(split_commas(p).len() - 1, split_commas(p).last())
            =~= split_commas(p));
    } else {
        let b0 = b.drop_last();
        assert(!b0.contains(',')) by {
            if b0.contains(',') {
                let k = choose|k: int| 0 <= k < b0.len() && b0[k] == ',';
                assert(b[k] == ',');
            }
        }
        lemma_split_append_plain(p, b0);
        assert((p + b).drop_last() =~= p + b0);
        assert((p + b).last() == b.last());
        assert(b.last() != ',') by {
            assert(b[b.len() - 1] == b.last());
        }
        let sp = split_commas(p);
        let r = split_commas(p + b0);
        assert(r.len() == sp.len());
        assert(r.last() == sp.last() + b0);
        assert(split_commas(p + b) == r.update(r.len() - 1, r.last().push(b.last())));
        assert((sp.last() + b0).push(b.last()) =~= sp.last() + b);
        assert(r.update(r.len() - 1, r.last().push(b.last())) =~= sp.update(sp.len() - 1, sp.last() + b));
    }
}

/// A list that `x` has joined holds `x`, when `x` is a non-empty piece without commas.
pub proof fn lemma_with_then_holds(data: Seq<char>, x: Seq<char>)
    requires x.len() > 0, !x.contains(','),
    ensures
        list_holds(
            match list_with_spec(data, x) { Some(r) => r, None => data },
            x,
        ),
{
    if data.len() == 0 {
        lemma_split_append_plain(Seq::<char>::empty(), x);
        assert(Seq::<char>::empty() + x =~= x);
        assert(split_commas(x)[0] == x);
    } else if !split_commas(data).contains(x) {
        let d1 = data + seq![','];
        assert(d1.drop_last() =~= data);
        lemma_split_len(data);
        lemma_split_append_plain(d1, x);
        let r = split_commas(d1 + x);
        assert(r[r.len() - 1] == Seq::<char>::empty() + x);
        assert(Seq::<char>::empty() + x =~= x);
        assert(data + seq![','] + x =~= d1 + x);
    }
}

/// The pieces of a list never hold a comma.
pub proof fn lemma_split_plain(s: Seq<char>)
    ensures forall|i: int| 0 <= i < split_commas(s).len() ==> !(#[trigger] split_commas(s)[i]).contains(','),
    decreases s.len(),
{
    if s.len() > 0 {
        let t = s.drop_last();
        lemma_split_plain(t);
        lemma_split_len(t);
        let r = split_commas(t);
        if s.last() != ',' {
            let q = r.last().push(s.last());
            assert(!q.contains(',')) by {
                if q.contains(',') {
                    let k = choose|k: int| 0 <= k < q.len() && q[k] == ',';
                    if k < r.last().len() {
                        assert(r.last()[k] == ',');
                        assert(r[r.len() - 1].contains(','));
                    }
                }
            }
        }
    }
}

/// Joining pieces without commas and splitting the result gives the pieces back.
pub proof fn lemma_split_join(parts: Seq<Seq<char>>)
    requires
        parts.len() >= 1,
        forall|i: int| 0 <= i < parts.len() ==> !(#[trigger] parts[i]).contains(','),
    ensures split_commas(join_commas(parts)) == parts,
    decreases parts.len(),
{
    if parts.len() == 1 {
        lemma_split_append_plain(Seq::<char>::empty(), parts[0]);
        assert(Seq::<char>::empty() + parts[0] =~= parts[0]);
        assert(split_commas(parts[0]) =~= parts);
    } else {
        let front = parts.drop_last();
        lemma_split_join(front);
        let a = join_commas(front);
        let d1 = a + seq![','];
        assert(d1.drop_last() =~= a);
        assert(split_commas(d1) == split_commas(a).push(Seq::<char>::empty()));
        lemma_split_append_plain(d1, parts.last());
        assert(Seq::<char>::empty() + parts.last() =~= parts.last());
        assert(a + seq![','] + parts.last() =~= d1 + parts.last());
        assert(split_commas(d1 + parts.last()) =~= parts);
    }
}

/// A list that `x` joins keeps its pieces distinct, when `x` is a non-empty piece
/// without commas.
pub proof fn lemma_with_keeps_unique(data: Seq<char>, x: Seq<char>)
    requires x.len() > 0, !x.contains(','), split_commas(data).no_duplicates(),
    ensures
        split_commas(match list_with_spec(data, x) { Some(r) => r, None => data }).no_duplicates(),
{
    if data.len() == 0 {
        lemma_split_append_plain(Seq::<char>::empty(), x);
        assert(Seq::<char>::empty() + x =~= x);
        assert(split_commas(x) =~= seq![x]);
    } else if !split_commas(data).contains(x) {
        let d1 = data + seq![','];
        assert(d1.drop_last() =~= data);
        lemma_split_len(data);
        lemma_split_append_plain(d1, x);
        assert(Seq::<char>::empty() + x =~= x);
        assert(data + seq![','] + x =~= d1 + x);
        let p = split_commas(data);
        assert(split_commas(d1 + x) =~= p.push(x));
        assert(p.push(x).no_duplicates()) by {
            assert forall|i: int, j: int| 0 <= i < p.push(x).len() && 0 <= j < p.push(x).len() && i != j
                implies p.push(x)[i] != p.push(x)[j] by {
                if i == p.len() { assert(p[j] == p.push(x)[j]); }
                else if j == p.len() { assert(p[i] == p.push(x)[i]); }
            }
        }
    }
}

/// A list with distinct pieces no longer holds `x` once `x` has left it, and its pieces
/// stay distinct.
pub proof fn lemma_without_then_lacks(data: Seq<char>, x: Seq<char>)
    requires split_commas(data).no_duplicates(),
    ensures ({
        let r = match list_without_spec(data, x) { Some(r) => r, None => data };
        &&& !list_holds(r, x)
        &&& split_commas(r).no_duplicates()
    }),
{
    if list_holds(data, x) {
        let parts = split_commas(data);
        lemma_first_position(parts, x);
        let p = first_position(parts, x);
        let rest = parts.remove(p);
        if rest.len() == 0 {
            assert(join_commas(rest) =~= Seq::<char>::empty());
            assert(split_commas(Seq::<char>::empty()).len() == 1);
        } else {
            lemma_split_plain(data);
            assert forall|i: int| 0 <= i < rest.len() implies !(#[trigger] rest[i]).contains(',') by {
                if i < p { assert(rest[i] == parts[i]); } else { assert(rest[i] == parts[i + 1]); }
            }
            lemma_split_join(rest);
            assert(!rest.contains(x)) by {
                if rest.contains(x) {
                    let k = choose|k: int| 0 <= k < rest.len() && rest[k] == x;
                    if k < p { assert(parts[k] == x); } else { assert(parts[k + 1] == x); }
                }
            }
            assert(rest.no_duplicates()) by {
                assert forall|i: int, j: int| 0 <= i < rest.len() && 0 <= j < rest.len() && i != j
                    implies rest[i] != rest[j] by {
                    let i2 = if i < p { i } else { i + 1 };
                    let j2 = if j < p { j } else { j + 1 };
                    assert(rest[i] == parts[i2] && rest[j] == parts[j2]);
                }
            }
        }
    }
}

/// Removing an item from a list never makes it hold another item it did not hold.
pub proof fn lemma_without_keeps_lacking(data: Seq<char>, x: Seq<char>, y: Seq<char>)
    requires !list_holds(data, y),
    ensures !list_holds(match list_without_spec(data, x) { Some(r) => r, None => data }, y),
{
    if list_holds(data, x) {
        let parts = split_commas(data);
        lemma_first_position(parts, x);
        let p = first_position(parts, x);
        let rest = parts.remove(p);
        if rest.len() == 0 {
            assert(join_commas(rest) =~= Seq::<char>::empty());
        } else {
            lemma_split_plain(data);
            assert forall|i: int| 0 <= i < rest.len() implies !(#[trigger] rest[i]).contains(',') by {
                if i < p { assert(rest[i] == parts[i]); } else { assert(rest[i] == parts[i + 1]); }
            }
            lemma_split_join(rest);
            if rest.contains(y) {
                let k = choose|k: int| 0 <= k < rest.len() && rest[k] == y;
                if k < p { assert(parts[k] == y); } else { assert(parts[k + 1] == y); }
            }
        }
    }
}

} // verus!
