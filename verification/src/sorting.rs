//! A total order on `(key, optional value)` entries and a verified sort.
//! Resource parameters and vendor headers are both canonicalized by
//! sorting entries with this order before they are rendered.

use vstd::prelude::*;
use vstd::multiset::Multiset;
use vstd::relations::{sorted_by, total_ordering};
use vstd::seq_lib::lemma_sorted_unique;

use crate::chars::{
    lemma_seq_char_le_antisymmetric, lemma_seq_char_le_reflexive, lemma_seq_char_le_total,
    lemma_seq_char_le_transitive, seq_char_le, str_eq, str_le,
};

verus! {

/// Order on optional values: an absent value comes first, present values
/// follow character order.
pub open spec fn opt_le(a: Option<Seq<char>>, b: Option<Seq<char>>) -> bool {
    match (a, b) {
        (Option::None, _) => true,
        (Option::Some(_), Option::None) => false,
        (Option::Some(x), Option::Some(y)) => seq_char_le(x, y),
    }
}

/// Total order on entries: by key, ties broken by value.
pub open spec fn entry_le(
    a: (Seq<char>, Option<Seq<char>>),
    b: (Seq<char>, Option<Seq<char>>),
) -> bool {
    if a.0 != b.0 {
        seq_char_le(a.0, b.0)
    } else {
        opt_le(a.1, b.1)
    }
}

pub open spec fn entry_le_rel() -> spec_fn(
    (Seq<char>, Option<Seq<char>>),
    (Seq<char>, Option<Seq<char>>),
) -> bool {
    |a: (Seq<char>, Option<Seq<char>>), b: (Seq<char>, Option<Seq<char>>)| entry_le(a, b)
}

pub proof fn lemma_entry_le_reflexive(a: (Seq<char>, Option<Seq<char>>))
    ensures
        entry_le(a, a),
{
    match a.1 {
        Option::Some(x) => lemma_seq_char_le_reflexive(x),
        Option::None => (),
    }
}

pub proof fn lemma_entry_le_total(a: (Seq<char>, Option<Seq<char>>), b: (Seq<char>, Option<Seq<char>>))
    ensures
        entry_le(a, b) || entry_le(b, a),
{
    if a.0 == b.0 {
        match (a.1, b.1) {
            (Option::Some(x), Option::Some(y)) => lemma_seq_char_le_total(x, y),
            _ => (),
        }
    } else {
        lemma_seq_char_le_total(a.0, b.0);
    }
}

pub proof fn lemma_entry_le_antisymmetric(
    a: (Seq<char>, Option<Seq<char>>),
    b: (Seq<char>, Option<Seq<char>>),
)
    requires
        entry_le(a, b),
        entry_le(b, a),
    ensures
        a == b,
{
    if a.0 != b.0 {
        lemma_seq_char_le_antisymmetric(a.0, b.0);
    } else {
        match (a.1, b.1) {
            (Option::Some(x), Option::Some(y)) => {
                lemma_seq_char_le_antisymmetric(x, y);
            },
            _ => (),
        }
        assert(a.1 == b.1);
    }
    assert(a == (a.0, a.1));
    assert(b == (b.0, b.1));
}

pub proof fn lemma_entry_le_transitive(
    a: (Seq<char>, Option<Seq<char>>),
    b: (Seq<char>, Option<Seq<char>>),
    c: (Seq<char>, Option<Seq<char>>),
)
    requires
        entry_le(a, b),
        entry_le(b, c),
    ensures
        entry_le(a, c),
{
    if a.0 == b.0 && b.0 == c.0 {
        match (a.1, b.1, c.1) {
            (Option::Some(x), Option::Some(y), Option::Some(z)) => {
                lemma_seq_char_le_transitive(x, y, z);
            },
            _ => (),
        }
    } else if a.0 == b.0 {
        // key order is decided between b and c
    } else if b.0 == c.0 {
        // key order is decided between a and b
    } else {
        lemma_seq_char_le_transitive(a.0, b.0, c.0);
        if a.0 == c.0 {
            lemma_seq_char_le_antisymmetric(a.0, b.0);
        }
    }
}

pub proof fn lemma_entry_le_total_ordering()
    ensures
        total_ordering(entry_le_rel()),
{
    let rel = entry_le_rel();
    assert forall|a: (Seq<char>, Option<Seq<char>>)| #[trigger] rel(a, a) by {
        lemma_entry_le_reflexive(a);
    }
    assert forall|a: (Seq<char>, Option<Seq<char>>), b: (Seq<char>, Option<Seq<char>>)|
        #[trigger] rel(a, b) && #[trigger] rel(b, a) implies a == b by {
        lemma_entry_le_antisymmetric(a, b);
    }
    assert forall|
        a: (Seq<char>, Option<Seq<char>>),
        b: (Seq<char>, Option<Seq<char>>),
        c: (Seq<char>, Option<Seq<char>>),
    |
        #[trigger] rel(a, b) && #[trigger] rel(b, c) implies rel(a, c) by {
        lemma_entry_le_transitive(a, b, c);
    }
    assert forall|a: (Seq<char>, Option<Seq<char>>), b: (Seq<char>, Option<Seq<char>>)|
        #[trigger] rel(a, b) || #[trigger] rel(b, a) by {
        lemma_entry_le_total(a, b);
    }
}

/// Entry comparison, decided on the underlying strings.
pub fn entry_le_exec(a: &(String, Option<String>), b: &(String, Option<String>)) -> (r: bool)
    ensures
        r == entry_le(a.deep_view(), b.deep_view()),
{
    if !str_eq(a.0.as_str(), b.0.as_str()) {
        str_le(a.0.as_str(), b.0.as_str())
    } else {
        match (&a.1, &b.1) {
            (Option::None, _) => true,
            (Option::Some(_), Option::None) => false,
            (Option::Some(x), Option::Some(y)) => str_le(x.as_str(), y.as_str()),
        }
    }
}

/// Sorts entries into the canonical order: the unique sequence, ordered by
/// `entry_le`, that carries the same entries as the input.
pub fn sort_entries(es: Vec<(String, Option<String>)>) -> (r: Vec<(String, Option<String>)>)
    ensures
        r.deep_view() == es.deep_view().sort_by(entry_le_rel()),
        r.deep_view().to_multiset() == es.deep_view().to_multiset(),
        sorted_by(r.deep_view(), entry_le_rel()),
{
    broadcast use vstd::seq_lib::group_to_multiset_ensures;
    broadcast use vstd::multiset::group_multiset_axioms;

    let ghost orig = es.deep_view();
    let mut input = es;
    let mut out: Vec<(String, Option<String>)> = Vec::new();
    proof {
        assert(out.deep_view() =~= Seq::<(Seq<char>, Option<Seq<char>>)>::empty());
        assert(out.deep_view().to_multiset().add(input.deep_view().to_multiset()) =~= orig.to_multiset());
    }
    while input.len() > 0
        invariant
            out.deep_view().to_multiset().add(input.deep_view().to_multiset()) =~= orig.to_multiset(),
            forall|i: int, j: int|
                0 <= i < j < out.deep_view().len() ==> entry_le(
                    #[trigger] out.deep_view()[i],
                    #[trigger] out.deep_view()[j],
                ),
            forall|i: int, j: int|
                0 <= i < out.deep_view().len() && 0 <= j < input.deep_view().len() ==> entry_le(
                    #[trigger] out.deep_view()[i],
                    #[trigger] input.deep_view()[j],
                ),
        decreases input.len(),
    {
        let mut mi: usize = 0;
        let mut i: usize = 1;
        proof {
            lemma_entry_le_reflexive(input.deep_view()[0]);
        }
        while i < input.len()
            invariant
                input.len() > 0,
                mi < i <= input.len(),
                forall|j: int|
                    0 <= j < i ==> entry_le(
                        input.deep_view()[mi as int],
                        #[trigger] input.deep_view()[j],
                    ),
            decreases input.len() - i,
        {
            proof {
                lemma_entry_le_reflexive(input.deep_view()[i as int]);
            }
            if entry_le_exec(&input[i], &input[mi]) {
                proof {
                    assert forall|j: int| 0 <= j < i + 1 implies entry_le(
                        input.deep_view()[i as int],
                        #[trigger] input.deep_view()[j],
                    ) by {
                        if j < i {
                            lemma_entry_le_transitive(
                                input.deep_view()[i as int],
                                input.deep_view()[mi as int],
                                input.deep_view()[j],
                            );
                        }
                    }
                }
                mi = i;
            } else {
                proof {
                    lemma_entry_le_total(
                        input.deep_view()[i as int],
                        input.deep_view()[mi as int],
                    );
                }
            }
            i += 1;
        }
        let ghost old_input = input.deep_view();
        let ghost old_out = out.deep_view();
        let e = input.remove(mi);
        proof {
            assert(input.deep_view() =~= old_input.remove(mi as int));
            assert(e.deep_view() == old_input[mi as int]);
        }
        out.push(e);
        proof {
            assert(out.deep_view() =~= old_out.push(e.deep_view()));
            assert(out.deep_view().to_multiset().add(input.deep_view().to_multiset())
                =~= orig.to_multiset()) by {
                vstd::seq_lib::to_multiset_build(old_out, e.deep_view());
                vstd::seq_lib::to_multiset_remove(old_input, mi as int);
                vstd::seq_lib::to_multiset_contains(old_input, old_input[mi as int]);
                assert(old_input.contains(old_input[mi as int]));
            }
            assert forall|i2: int, j2: int|
                0 <= i2 < out.deep_view().len() && 0 <= j2 < input.deep_view().len() implies entry_le(
                #[trigger] out.deep_view()[i2],
                #[trigger] input.deep_view()[j2],
            ) by {
                let jorig = if j2 < mi {
                    j2
                } else {
                    j2 + 1
                };
                assert(input.deep_view()[j2] == old_input[jorig]);
                if i2 < old_out.len() {
                    assert(entry_le(old_out[i2], old_input[jorig]));
                } else {
                    assert(out.deep_view()[i2] == e.deep_view());
                    assert(entry_le(old_input[mi as int], old_input[jorig]));
                }
            }
        }
    }
    proof {
        assert(input.deep_view() =~= Seq::<(Seq<char>, Option<Seq<char>>)>::empty());
        assert(input.deep_view().to_multiset() =~= Multiset::empty());
        assert(out.deep_view().to_multiset().add(input.deep_view().to_multiset())
            =~= out.deep_view().to_multiset());
        let rel = entry_le_rel();
        assert(sorted_by(out.deep_view(), rel)) by {
            assert forall|i: int, j: int|
                0 <= i < j < out.deep_view().len() implies #[trigger] rel(
                out.deep_view()[i],
                out.deep_view()[j],
            ) by {
                assert(entry_le(out.deep_view()[i], out.deep_view()[j]));
            }
        }
        lemma_entry_le_total_ordering();
        orig.lemma_sort_by_ensures(rel);
        lemma_sorted_unique(out.deep_view(), orig.sort_by(rel), rel);
        assert(out.deep_view() == orig.sort_by(rel));
    }
    out
}

/// A sequence's filtered multiset is the filtered multiset of the
/// sequence.
pub proof fn lemma_filter_to_multiset<T>(s: Seq<T>, pred: spec_fn(T) -> bool)
    ensures
        s.filter(pred).to_multiset() == s.to_multiset().filter(pred),
    decreases s.len(),
{
    broadcast use vstd::multiset::group_multiset_axioms;

    reveal(Seq::filter);
    if s.len() == 0 {
        assert(s.filter(pred) =~= s);
        assert forall|x: T| s.to_multiset().count(x) == 0 by {
            vstd::seq_lib::to_multiset_contains(s, x);
        }
        assert(s.to_multiset() =~= Multiset::empty());
        assert(s.filter(pred).to_multiset() =~= s.to_multiset().filter(pred));
    } else {
        let butlast = s.drop_last();
        lemma_filter_to_multiset(butlast, pred);
        vstd::seq_lib::to_multiset_build(butlast, s.last());
        assert(butlast.push(s.last()) =~= s);
        if pred(s.last()) {
            vstd::seq_lib::to_multiset_build(butlast.filter(pred), s.last());
            assert(s.filter(pred) == butlast.filter(pred).push(s.last()));
            assert(s.filter(pred).to_multiset() =~= s.to_multiset().filter(pred));
        } else {
            assert(s.filter(pred) == butlast.filter(pred));
            assert(s.filter(pred).to_multiset() =~= s.to_multiset().filter(pred));
        }
    }
}

/// Mapping a function over two sequences that carry the same elements
/// yields sequences that carry the same elements.
pub proof fn lemma_map_values_multiset<T, U>(s1: Seq<T>, s2: Seq<T>, f: spec_fn(T) -> U)
    requires
        s1.to_multiset() == s2.to_multiset(),
    ensures
        s1.map_values(f).to_multiset() == s2.map_values(f).to_multiset(),
    decreases s1.len(),
{
    broadcast use vstd::multiset::group_multiset_axioms;

    vstd::seq_lib::to_multiset_len(s1);
    vstd::seq_lib::to_multiset_len(s2);
    if s1.len() == 0 {
        assert(s1.map_values(f) =~= s2.map_values(f));
    } else {
        let e = s1.last();
        vstd::seq_lib::to_multiset_build(s1.drop_last(), e);
        assert(s1.drop_last().push(e) =~= s1);
        vstd::seq_lib::to_multiset_contains(s2, e);
        assert(s1.to_multiset().count(e) > 0) by {
            vstd::seq_lib::to_multiset_contains(s1, e);
            assert(s1.contains(e));
        }
        assert(s2.contains(e));
        let j = choose|j: int| 0 <= j < s2.len() && s2[j] == e;
        vstd::seq_lib::to_multiset_remove(s2, j);
        assert(s1.drop_last().to_multiset() =~= s2.remove(j).to_multiset()) by {
            assert(s1.to_multiset().remove(e) =~= s2.to_multiset().remove(e));
        }
        lemma_map_values_multiset(s1.drop_last(), s2.remove(j), f);
        vstd::seq_lib::to_multiset_build(s1.drop_last().map_values(f), f(e));
        assert(s1.map_values(f) =~= s1.drop_last().map_values(f).push(f(e)));
        assert(s2.remove(j).map_values(f) =~= s2.map_values(f).remove(j));
        vstd::seq_lib::to_multiset_remove(s2.map_values(f), j);
        assert(s2.map_values(f)[j] == f(e));
        assert(s1.map_values(f).to_multiset() =~= s2.map_values(f).to_multiset()) by {
            assert(s1.map_values(f).to_multiset() =~= s1.drop_last().map_values(
                f,
            ).to_multiset().insert(f(e)));
            assert(s2.map_values(f).remove(j).to_multiset() =~= s2.map_values(
                f,
            ).to_multiset().remove(f(e)));
            assert(s2.map_values(f).to_multiset().count(f(e)) > 0) by {
                vstd::seq_lib::to_multiset_contains(s2.map_values(f), f(e));
                assert(s2.map_values(f).contains(f(e)));
            }
        }
    }
}

} // verus!
