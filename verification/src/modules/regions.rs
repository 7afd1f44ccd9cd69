//! The `regions` listing: the name filter and the width of the printed name
//! column.
use vstd::prelude::*;

use crate::text::{
    chars_of, contains, contains_chars, first_difference_below, lemma_lex_lt_is_string_order,
    lemma_lex_transitive, proper_prefix, lemma_lex_trichotomy, lex_less, lex_lt,
    lowered, to_lowercase,
};

verus! {

/// Whether an area name passes `--name`: it contains the filter text, both
/// lower-cased (Unicode).
pub fn name_matches(name: &str, filter: &str) -> (r: bool)
    ensures
        r == contains(lowered(name@), lowered(filter@)),
{
    let n = to_lowercase(name);
    let f = to_lowercase(filter);
    contains_chars(chars_of(n.as_str()).as_slice(), chars_of(f.as_str()).as_slice())
}

/// Width of the printed name column: the longest name in characters, and at
/// least 4, the width of the "name" header.
pub fn name_width(names: &[String]) -> (r: usize)
    ensures
        r >= 4,
        forall|i: int| 0 <= i < names.len() ==> names@[i]@.len() <= r,
        r == 4 || exists|i: int| 0 <= i < names.len() && names@[i]@.len() == r,
{
    let mut w: usize = 4;
    let mut i: usize = 0;
    while i < names.len()
        invariant
            i <= names.len(),
            w >= 4,
            forall|k: int| 0 <= k < i ==> names@[k]@.len() <= w,
            w == 4 || exists|k: int| 0 <= k < i && names@[k]@.len() == w,
        decreases names.len() - i,
    {
        let c = chars_of(names[i].as_str()).len();
        if c > w {
            w = c;
        }
        i = i + 1;
    }
    w
}

/// The features sharing one name: the name, and the indices of its parts in
/// increasing order.
#[derive(Debug)]
pub struct NameGroup {
    pub name: String,
    pub members: Vec<usize>,
}

/// `g` gathers exactly the parts among the first `upto` that carry its name,
/// in increasing order, and at least one of them.
pub open spec fn gathers(names: Seq<Seq<char>>, upto: int, g: NameGroup) -> bool {
    &&& g.members.len() > 0
    &&& forall|a: int, b: int| 0 <= a < b < g.members.len() ==> g.members@[a] < g.members@[b]
    &&& forall|a: int|
        0 <= a < g.members.len() ==> #[trigger] g.members@[a] < upto && names[g.members@[a] as int]
            == g.name@
    &&& forall|j: int| 0 <= j < upto && names[j] == g.name@ ==> g.members@.contains(j as usize)
}

/// Some group carries the name `x`.
pub open spec fn has_group(groups: Seq<NameGroup>, x: Seq<char>) -> bool {
    exists|g: int| 0 <= g < groups.len() && #[trigger] groups[g].name@ == x
}

/// `groups` is the grouping of the first `upto` names: one group per name,
/// sorted by name, each gathering exactly its parts.
pub open spec fn grouped(names: Seq<Seq<char>>, upto: int, groups: Seq<NameGroup>) -> bool {
    &&& forall|a: int, b: int|
        0 <= a < b < groups.len() ==> lex_lt(#[trigger] groups[a].name@, #[trigger] groups[b].name@)
    &&& forall|g: int| 0 <= g < groups.len() ==> gathers(names, upto, #[trigger] groups[g])
    &&& forall|j: int| 0 <= j < upto ==> has_group(groups, #[trigger] names[j])
}

/// Collapse named polygon parts into one group per name, sorted by name. A
/// MultiPolygon arrives as several parts sharing a name, and its parts are
/// exactly what has to be merged for the extent to be right.
pub fn group_by_name(names: &[String]) -> (r: Vec<NameGroup>)
    ensures
        grouped(names@.map_values(|s: String| s@), names.len() as int, r@),
{
    let ghost ns = names@.map_values(|s: String| s@);
    let mut groups: Vec<NameGroup> = Vec::new();
    let mut i: usize = 0;
    while i < names.len()
        invariant
            i <= names.len(),
            ns == names@.map_values(|s: String| s@),
            grouped(ns, i as int, groups@),
        decreases names.len() - i,
    {
        let x = chars_of(names[i].as_str());
        assert(x@ == ns[i as int]);
        let mut k: usize = 0;
        while k < groups.len() && lex_less(chars_of(groups[k].name.as_str()).as_slice(), x.as_slice())
            invariant
                k <= groups.len(),
                forall|a: int| 0 <= a < k ==> lex_lt(#[trigger] groups@[a].name@, x@),
            decreases groups.len() - k,
        {
            k = k + 1;
        }
        let ghost old_groups = groups@;
        if k < groups.len() && groups[k].name == names[i] {
            let mut g = groups.remove(k);
            g.members.push(i);
            groups.insert(k, g);
            proof {
                assert(groups@ =~= old_groups.update(k as int, groups@[k as int]));
                assert forall|g2: int| 0 <= g2 < groups@.len() implies gathers(
                    ns,
                    i + 1,
                    #[trigger] groups@[g2],
                ) by {
                    let gg = groups@[g2];
                    if g2 == k {
                        let om = old_groups[k as int].members@;
                        assert(gg.members@ == om.push(i));
                        assert forall|a: int| 0 <= a < gg.members.len() implies #[trigger] gg.members@[a]
                            < i + 1 && ns[gg.members@[a] as int] == gg.name@ by {
                            if a < om.len() {
                                assert(gg.members@[a] == om[a]);
                            }
                        }
                        assert forall|a: int, b: int|
                            0 <= a < b < gg.members.len() implies gg.members@[a] < gg.members@[b] by {
                            if b < om.len() {
                            } else {
                                assert(gg.members@[a] == om[a]);
                                assert(om[a] < i);
                            }
                        }
                        assert forall|j: int| 0 <= j < i + 1 && ns[j] == gg.name@ implies gg.members@.contains(
                            j as usize,
                        ) by {
                            if j == i {
                                assert(gg.members@[om.len() as int] == i);
                            } else {
                                assert(om.contains(j as usize));
                                let w = choose|w: int| 0 <= w < om.len() && om[w] == j as usize;
                                assert(gg.members@[w] == j as usize);
                            }
                        }
                    } else {
                        assert(gg == old_groups[g2]);
                        assert forall|j: int| 0 <= j < i + 1 && ns[j] == gg.name@ implies gg.members@.contains(
                            j as usize,
                        ) by {
                            if j == i {
                                lemma_lex_trichotomy(old_groups[k as int].name@, gg.name@);
                                assert(groups@[k as int].name@ == ns[i as int]);
                                if g2 < k {
                                    assert(lex_lt(groups@[g2].name@, groups@[k as int].name@));
                                } else {
                                    assert(lex_lt(groups@[k as int].name@, groups@[g2].name@));
                                }
                            }
                        }
                    }
                }
                assert forall|j: int| 0 <= j < i + 1 implies has_group(groups@, #[trigger] ns[j]) by {
                    if j == i {
                        assert(groups@[k as int].name@ == ns[j]);
                    } else {
                        assert(has_group(old_groups, ns[j]));
                        let w = choose|w: int| 0 <= w < old_groups.len() && #[trigger] old_groups[w].name@ == ns[j];
                        assert(groups@[w].name@ == ns[j]);
                    }
                }
            }
        } else {
            let mut members: Vec<usize> = Vec::new();
            members.push(i);
            let g = NameGroup { name: names[i].clone(), members };
            proof {
                if k < old_groups.len() {
                    lemma_lex_trichotomy(old_groups[k as int].name@, x@);
                    assert(lex_lt(x@, old_groups[k as int].name@));
                }
            }
            groups.insert(k, g);
            proof {
                assert(groups@ =~= old_groups.insert(k as int, g));
                assert forall|a: int, b: int|
                    0 <= a < b < groups@.len() implies lex_lt(
                    #[trigger] groups@[a].name@,
                    #[trigger] groups@[b].name@,
                ) by {
                    if b < k {
                    } else if b == k {
                    } else if a == k {
                        if b - 1 > k {
                            lemma_lex_transitive(x@, old_groups[k as int].name@, old_groups[b - 1].name@);
                        }
                    } else if a < k {
                        assert(lex_lt(old_groups[a].name@, x@));
                        if b - 1 > k {
                            lemma_lex_transitive(x@, old_groups[k as int].name@, old_groups[b - 1].name@);
                        }
                        lemma_lex_transitive(old_groups[a].name@, x@, old_groups[b - 1].name@);
                    } else {
                        assert(groups@[a] == old_groups[a - 1]);
                        assert(groups@[b] == old_groups[b - 1]);
                    }
                }
                assert forall|g2: int| 0 <= g2 < groups@.len() implies gathers(
                    ns,
                    i + 1,
                    #[trigger] groups@[g2],
                ) by {
                    let gg = groups@[g2];
                    if g2 == k {
                        assert(gg.members@ =~= seq![i]);
                        assert forall|j: int| 0 <= j < i + 1 && ns[j] == gg.name@ implies gg.members@.contains(
                            j as usize,
                        ) by {
                            if j < i {
                                assert(has_group(old_groups, ns[j]));
                                let w = choose|w: int| 0 <= w < old_groups.len() && #[trigger] old_groups[w].name@ == ns[j];
                                if w < k {
                                    assert(lex_lt(old_groups[w].name@, x@));
                                    lemma_lex_trichotomy(x@, x@);
                                } else {
                                    lemma_lex_trichotomy(x@, x@);
                                    if w > k {
                                        lemma_lex_transitive(x@, old_groups[k as int].name@, old_groups[w].name@);
                                    }
                                }
                            } else {
                                assert(gg.members@[0] == i);
                            }
                        }
                    } else {
                        let og = if g2 < k { old_groups[g2] } else { old_groups[g2 - 1] };
                        assert(gg == og);
                        assert forall|j: int| 0 <= j < i + 1 && ns[j] == gg.name@ implies gg.members@.contains(
                            j as usize,
                        ) by {
                            if j == i {
                                lemma_lex_trichotomy(x@, x@);
                                if g2 < k {
                                    assert(lex_lt(old_groups[g2].name@, x@));
                                } else {
                                    if g2 - 1 > k {
                                        lemma_lex_transitive(x@, old_groups[k as int].name@, old_groups[g2 - 1].name@);
                                    }
                                }
                            }
                        }
                    }
                }
                assert forall|j: int| 0 <= j < i + 1 implies has_group(groups@, #[trigger] ns[j]) by {
                    if j == i {
                        assert(groups@[k as int].name@ == ns[j]);
                    } else {
                        assert(has_group(old_groups, ns[j]));
                        let w = choose|w: int| 0 <= w < old_groups.len() && #[trigger] old_groups[w].name@ == ns[j];
                        if w < k {
                            assert(groups@[w].name@ == ns[j]);
                        } else {
                            assert(groups@[w + 1].name@ == ns[j]);
                        }
                    }
                }
            }
        }
        i = i + 1;
    }
    groups
}


/// The groups come in the order of `String`'s `Ord` on their names: of two
/// groups, the earlier name is a proper prefix of the later one, or has the
/// smaller character where they first differ, whatever their lengths.
pub proof fn lemma_groups_in_string_order(names: Seq<Seq<char>>, groups: Seq<NameGroup>, a: int, b: int)
    requires
        grouped(names, names.len() as int, groups),
        0 <= a < b < groups.len(),
    ensures
        proper_prefix(groups[a].name@, groups[b].name@) || exists|i: int|
            first_difference_below(groups[a].name@, groups[b].name@, i),
{
    lemma_lex_lt_is_string_order(groups[a].name@, groups[b].name@);
}

} // verus!
