//! Lists of named values that stand for ordered maps: each name once, and the
//! names in ascending order.

use vstd::prelude::*;
use crate::stats::{comes_before, text_less};
use crate::text::same;

verus! {

/// The names are in ascending order, and none of them is there twice.
pub open spec fn is_ordered<V>(s: Seq<(String, V)>) -> bool {
    forall|i: int, j: int|
        0 <= i < j < s.len() ==> text_less((#[trigger] s[i]).0@, (#[trigger] s[j]).0@)
}

/// The value of a name: the last one, where there are several.
pub open spec fn value_of<V>(s: Seq<(String, V)>, name: Seq<char>) -> Option<V>
    decreases s.len(),
{
    if s.len() == 0 {
        None
    } else if s.last().0@ == name {
        Some(s.last().1)
    } else {
        value_of(s.drop_last(), name)
    }
}

/// The list is the other one, in order: it has the same values under the same
/// names.
pub open spec fn is_ordering_of<V>(out: Seq<(String, V)>, given: Seq<(String, V)>) -> bool {
    &&& is_ordered(out)
    &&& forall|name: Seq<char>| #[trigger] value_of(out, name) == value_of(given, name)
}

/// Law: no text comes before itself, and of two texts one comes before the other.
pub proof fn law_text_order_is_total(a: Seq<char>, b: Seq<char>)
    ensures
        !text_less(a, a),
        text_less(a, b) ==> !text_less(b, a),
        a == b || text_less(a, b) || text_less(b, a),
    decreases a.len(),
{
    if a.len() > 0 && b.len() > 0 {
        law_text_order_is_total(a.drop_first(), b.drop_first());
        if a[0] == b[0] && a.drop_first() == b.drop_first() {
            assert(a =~= seq![a[0]] + a.drop_first());
            assert(b =~= seq![b[0]] + b.drop_first());
        }
    } else if a.len() > 0 {
        law_text_order_is_total(a.drop_first(), b);
    } else if b.len() == 0 {
        assert(a =~= b);
    }
}

/// Law: what comes before a text comes before all that come after it.
pub proof fn law_text_order_is_transitive(a: Seq<char>, b: Seq<char>, c: Seq<char>)
    requires
        text_less(a, b),
        text_less(b, c),
    ensures
        text_less(a, c),
    decreases a.len(),
{
    if a.len() > 0 && a[0] == b[0] && b[0] == c[0] {
        law_text_order_is_transitive(a.drop_first(), b.drop_first(), c.drop_first());
    }
}

/// What is under a name is somewhere in the list.
pub proof fn lemma_value_place<V>(s: Seq<(String, V)>, name: Seq<char>)
    ensures
        value_of(s, name) is Some <==> exists|i: int| 0 <= i < s.len() && (#[trigger] s[i]).0@ == name,
    decreases s.len(),
{
    if s.len() > 0 {
        let d = s.drop_last();
        lemma_value_place(d, name);
        if s.last().0@ == name {
            assert(s[s.len() - 1].0@ == name);
        } else if value_of(d, name) is Some {
            let i = choose|i: int| 0 <= i < d.len() && (#[trigger] d[i]).0@ == name;
            assert(s[i].0@ == name);
        } else if exists|i: int| 0 <= i < s.len() && (#[trigger] s[i]).0@ == name {
            let i = choose|i: int| 0 <= i < s.len() && (#[trigger] s[i]).0@ == name;
            assert(d[i].0@ == name);
        }
    }
}

/// In an ordered list a name has the value that stands beside it.
pub proof fn lemma_value_at<V>(s: Seq<(String, V)>, i: int)
    requires
        is_ordered(s),
        0 <= i < s.len(),
    ensures
        value_of(s, s[i].0@) == Some(s[i].1),
    decreases s.len(),
{
    if i < s.len() - 1 {
        assert(text_less(s[i].0@, s[s.len() - 1].0@));
        law_text_order_is_total(s[i].0@, s[i].0@);
        lemma_value_at(s.drop_last(), i);
    }
}

/// A value in front counts only where the name is not there behind it.
proof fn lemma_value_front<V>(x: (String, V), s: Seq<(String, V)>, name: Seq<char>)
    ensures
        value_of(seq![x] + s, name) == match value_of(s, name) {
            Some(v) => Some(v),
            None => if x.0@ == name {
                Some(x.1)
            } else {
                None
            },
        },
    decreases s.len(),
{
    let all = seq![x] + s;
    if s.len() == 0 {
        assert(all.drop_last() =~= s);
    } else {
        assert(all.last() == s.last());
        assert(all.drop_last() =~= seq![x] + s.drop_last());
        lemma_value_front(x, s.drop_last(), name);
    }
}

/// A value under a new name changes nothing else.
proof fn lemma_value_insert<V>(s: Seq<(String, V)>, at: int, x: (String, V), name: Seq<char>)
    requires
        0 <= at <= s.len(),
        value_of(s, x.0@) is None,
    ensures
        value_of(s.insert(at, x), name) == if x.0@ == name {
            Some(x.1)
        } else {
            value_of(s, name)
        },
    decreases s.len(),
{
    let all = s.insert(at, x);
    if at == s.len() {
        assert(all.drop_last() =~= s);
    } else {
        let d = s.drop_last();
        assert(all.last() == s.last());
        assert(all.drop_last() =~= d.insert(at, x));
        lemma_value_insert(d, at, x, name);
    }
}

/// Law: there is one ordering of a list.
pub proof fn law_one_ordering<V>(a: Seq<(String, V)>, b: Seq<(String, V)>, given: Seq<(String, V)>)
    requires
        is_ordering_of(a, given),
        is_ordering_of(b, given),
    ensures
        a.len() == b.len(),
        forall|i: int| 0 <= i < a.len() ==> (#[trigger] a[i]).0@ == b[i].0@ && a[i].1 == b[i].1,
    decreases a.len(),
{
    assert forall|name: Seq<char>| value_of(a, name) == value_of(b, name) by {
        assert(value_of(a, name) == value_of(given, name));
        assert(value_of(b, name) == value_of(given, name));
    }
    lemma_one_order(a, b);
}

proof fn lemma_one_order<V>(a: Seq<(String, V)>, b: Seq<(String, V)>)
    requires
        is_ordered(a),
        is_ordered(b),
        forall|name: Seq<char>| #[trigger] value_of(a, name) == value_of(b, name),
    ensures
        a.len() == b.len(),
        forall|i: int| 0 <= i < a.len() ==> (#[trigger] a[i]).0@ == b[i].0@ && a[i].1 == b[i].1,
    decreases a.len(),
{
    if a.len() == 0 {
        if b.len() > 0 {
            assert(value_of(a, b.last().0@) == value_of(b, b.last().0@));
        }
    } else {
        let x = a.last().0@;
        assert(value_of(a, x) == value_of(b, x));
        lemma_value_place(b, x);
        let i = choose|i: int| 0 <= i < b.len() && (#[trigger] b[i]).0@ == x;
        let y = b.last().0@;
        assert(value_of(a, y) == value_of(b, y));
        lemma_value_place(a, y);
        let j = choose|j: int| 0 <= j < a.len() && (#[trigger] a[j]).0@ == y;
        if x != y {
            assert(text_less(b[i].0@, b[b.len() - 1].0@));
            assert(text_less(a[j].0@, a[a.len() - 1].0@));
            law_text_order_is_total(x, y);
        }
        let (da, db) = (a.drop_last(), b.drop_last());
        assert forall|name: Seq<char>| #[trigger] value_of(da, name) == value_of(db, name) by {
            assert(value_of(a, name) == value_of(b, name));
            if name == x {
                lemma_value_place(da, x);
                lemma_value_place(db, x);
                law_text_order_is_total(x, x);
                assert forall|k: int| 0 <= k < da.len() implies (#[trigger] da[k]).0@ != x by {
                    assert(text_less(a[k].0@, a[a.len() - 1].0@));
                }
                assert forall|k: int| 0 <= k < db.len() implies (#[trigger] db[k]).0@ != x by {
                    assert(text_less(b[k].0@, b[b.len() - 1].0@));
                }
            }
        }
        lemma_one_order(da, db);
        assert forall|k: int| 0 <= k < a.len() implies (#[trigger] a[k]).0@ == b[k].0@ && a[k].1
            == b[k].1 by {
            if k < da.len() {
                assert(da[k] == a[k] && db[k] == b[k]);
            }
        }
    }
}

/// Puts named values in order. Of several under one name the last one counts.
pub fn put_in_order<V>(given: Vec<(String, V)>) -> (out: Vec<(String, V)>)
    ensures
        is_ordering_of(out@, given@),
{
    let mut rest = given;
    let mut out: Vec<(String, V)> = Vec::new();
    let ghost all = rest@;
    assert(all.skip(all.len() as int) =~= Seq::<(String, V)>::empty());
    assert(out@ =~= Seq::<(String, V)>::empty());
    loop
        invariant
            rest@.len() <= all.len(),
            rest@ == all.take(rest@.len() as int),
            is_ordering_of(out@, all.skip(rest@.len() as int)),
        ensures
            rest@.len() == 0,
        decreases rest@.len(),
    {
        let ghost n = rest@.len() as int;
        let ghost was = out@;
        let x = match rest.pop() {
            None => {
                break;
            },
            Some(x) => x,
        };
        assert(x == all[n - 1]);
        assert(rest@ =~= all.take(n - 1));
        assert(all.skip(n - 1) =~= seq![x] + all.skip(n));
        let mut at: usize = 0;
        while at < out.len() && comes_before(out[at].0.as_str(), x.0.as_str())
            invariant
                at <= out@.len(),
                forall|k: int| 0 <= k < at ==> text_less((#[trigger] out@[k]).0@, x.0@),
            decreases out@.len() - at,
        {
            at = at + 1;
        }
        let known = at < out.len() && same(out[at].0.as_str(), x.0.as_str());
        proof {
            assert forall|name: Seq<char>| #[trigger]
                value_of(all.skip(n - 1), name) == (match value_of(was, name) {
                    Some(v) => Some(v),
                    None => if x.0@ == name {
                        Some(x.1)
                    } else {
                        None
                    },
                }) by {
                assert(value_of(was, name) == value_of(all.skip(n), name));
                lemma_value_front(x, all.skip(n), name);
            }
            lemma_value_place(was, x.0@);
            if known {
                assert(was[at as int].0@ == x.0@);
            } else {
                assert forall|k: int| 0 <= k < was.len() implies (#[trigger] was[k]).0@ != x.0@
                    && (k >= at ==> text_less(x.0@, was[k].0@)) by {
                    law_text_order_is_total(x.0@, x.0@);
                    if k >= at {
                        law_text_order_is_total(was[at as int].0@, x.0@);
                        if k > at {
                            assert(text_less(was[at as int].0@, was[k].0@));
                            law_text_order_is_transitive(x.0@, was[at as int].0@, was[k].0@);
                        }
                    }
                }
                assert forall|name: Seq<char>| #[trigger]
                    value_of(was.insert(at as int, x), name) == value_of(all.skip(n - 1), name) by {
                    lemma_value_insert(was, at as int, x, name);
                }
                assert(is_ordered(was.insert(at as int, x)));
            }
        }
        if !known {
            out.insert(at, x);
        }
    }
    assert(all.skip(0) =~= all);
    out
}

} // verus!
