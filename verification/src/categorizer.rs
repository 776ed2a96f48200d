//! Choosing a transaction's category from its description.

use crate::config::{category_views, keyword_texts, Category};
use crate::text::{contains_text, is_substring, lowercase, to_lowercase};
use vstd::prelude::*;

verus! {

/// The title given where no rule matches: "Unknown".
pub open spec fn unknown_title() -> Seq<char> {
    seq!['U', 'n', 'k', 'n', 'o', 'w', 'n']
}

/// Among candidates (title, priority, whether it matched), the title and
/// priority of the first matching one with the highest priority, where that
/// priority is above zero; else ("Unknown", 0).
pub open spec fn best_match(cands: Seq<(Seq<char>, u32, bool)>) -> (Seq<char>, u32)
    decreases cands.len(),
{
    if cands.len() == 0 {
        (unknown_title(), 0)
    } else {
        let prev = best_match(cands.drop_last());
        let c = cands.last();
        if c.2 && c.1 > prev.1 {
            (c.0, c.1)
        } else {
            prev
        }
    }
}

/// Some keyword occurs in the text.
pub open spec fn keyword_hit(keywords: Seq<Seq<char>>, text: Seq<char>) -> bool {
    exists|j: int| 0 <= j < keywords.len() && is_substring(#[trigger] keywords[j], text)
}

/// The candidates of rules whose keywords, already in lower case, are matched
/// against a text already in lower case.
pub open spec fn candidates(
    rules: Seq<(Seq<char>, Seq<Seq<char>>, u32)>,
    lowered_keywords: Seq<Seq<Seq<char>>>,
    lowered_text: Seq<char>,
) -> Seq<(Seq<char>, u32, bool)> {
    Seq::new(
        rules.len(),
        |i: int| (rules[i].0, rules[i].2, keyword_hit(lowered_keywords[i], lowered_text)),
    )
}

/// The keywords of each rule in lower case.
pub open spec fn keywords_in_lower_case(rules: Seq<(Seq<char>, Seq<Seq<char>>, u32)>) -> Seq<
    Seq<Seq<char>>,
> {
    rules.map_values(|r: (Seq<char>, Seq<Seq<char>>, u32)| r.1.map_values(|k: Seq<char>| lowercase(k)))
}

/// The category of a description: rules and description are compared in lower
/// case.
pub open spec fn categorize_spec(
    rules: Seq<(Seq<char>, Seq<Seq<char>>, u32)>,
    description: Seq<char>,
) -> Seq<char> {
    best_match(candidates(rules, keywords_in_lower_case(rules), lowercase(description))).0
}

/// The title of the first rule with the highest priority among those with a
/// keyword that occurs in the description, where that priority is above zero;
/// else "Unknown". Keywords and description come already in lower case.
pub fn pick_category(
    categories: &Vec<Category>,
    lowered_keywords: &Vec<Vec<String>>,
    lowered_description: &str,
) -> (r: String)
    requires
        lowered_keywords.len() == categories.len(),
        forall|i: int|
            0 <= i < categories.len() ==> #[trigger] lowered_keywords@[i].len()
                == categories@[i]@.1.len(),
    ensures
        r@ == best_match(
            candidates(
                category_views(categories@),
                lowered_keywords@.map_values(|ks: Vec<String>| keyword_texts(ks@)),
                lowered_description@,
            ),
        ).0,
{
    let ghost rules = category_views(categories@);
    let ghost lk = lowered_keywords@.map_values(|ks: Vec<String>| keyword_texts(ks@));
    let ghost cands = candidates(rules, lk, lowered_description@);
    proof {
        reveal_strlit("Unknown");
    }
    let mut result = String::from_str("Unknown");
    let mut last_prio: u32 = 0;
    let n = categories.len();
    assert(cands.take(0) =~= Seq::<(Seq<char>, u32, bool)>::empty());
    for i in 0..n
        invariant
            n == categories.len(),
            n == lowered_keywords.len(),
            rules == category_views(categories@),
            lk == lowered_keywords@.map_values(|ks: Vec<String>| keyword_texts(ks@)),
            cands == candidates(rules, lk, lowered_description@),
            forall|i: int|
                0 <= i < categories.len() ==> #[trigger] lowered_keywords@[i].len()
                    == categories@[i]@.1.len(),
            (result@, last_prio) == best_match(cands.take(i as int)),
    {
        let category = &categories[i];
        let keywords = &lowered_keywords[i];
        let m = keywords.len();
        let ghost prev = best_match(cands.take(i as int));
        assert(cands.take(i + 1).drop_last() =~= cands.take(i as int));
        assert(rules[i as int] == category@);
        assert(lk[i as int] == keyword_texts(keywords@));
        for j in 0..m
            invariant
                m == keywords.len(),
                lk[i as int] == keyword_texts(keywords@),
                rules[i as int] == category@,
                prev == best_match(cands.take(i as int)),
                (result@, last_prio) == (if (exists|k: int|
                    0 <= k < j && is_substring(#[trigger] lk[i as int][k], lowered_description@))
                    && category@.2 > prev.1 {
                    (category@.0, category@.2)
                } else {
                    prev
                }),
        {
            let hit = contains_text(lowered_description, keywords[j].as_str());
            assert(lk[i as int][j as int] == keywords@[j as int]@);
            if hit && category.priority() > last_prio {
                result = String::from_str(category.title());
                last_prio = category.priority();
            }
        }
    }
    assert(cands.take(n as int) =~= cands);
    result
}

/// The category of a transaction's description: the title of the first rule
/// with the highest priority among those that have a keyword occurring in the
/// description (both in lower case), where that priority is above zero;
/// else "Unknown".
pub fn categorizer(categories: &Vec<Category>, description: &str) -> (r: String)
    ensures
        r@ == categorize_spec(category_views(categories@), description@),
{
    let lowered = to_lowercase(description);
    let mut lowered_keywords: Vec<Vec<String>> = Vec::new();
    let n = categories.len();
    let ghost rules = category_views(categories@);
    for i in 0..n
        invariant
            n == categories.len(),
            rules == category_views(categories@),
            lowered_keywords.len() == i,
            forall|k: int|
                0 <= k < i ==> keyword_texts(#[trigger] lowered_keywords@[k]@) == rules[k].1.map_values(
                    |w: Seq<char>| lowercase(w),
                ),
    {
        let keywords = categories[i].keywords();
        let mut lowered_here: Vec<String> = Vec::new();
        let m = keywords.len();
        for j in 0..m
            invariant
                m == keywords.len(),
                lowered_here.len() == j,
                forall|k: int|
                    0 <= k < j ==> (#[trigger] lowered_here@[k])@ == lowercase(keywords@[k]@),
        {
            lowered_here.push(to_lowercase(keywords[j].as_str()));
        }
        assert(keyword_texts(lowered_here@) =~= rules[i as int].1.map_values(
            |w: Seq<char>| lowercase(w),
        ));
        lowered_keywords.push(lowered_here);
    }
    let r = pick_category(categories, &lowered_keywords, lowered.as_str());
    assert(lowered_keywords@.map_values(|ks: Vec<String>| keyword_texts(ks@)) =~= keywords_in_lower_case(
        rules,
    ));
    r
}

/// The chosen title is "Unknown" with priority 0 exactly where no matching
/// candidate has a priority above zero; otherwise it is the title of the first
/// matching candidate whose priority is the highest among matching candidates.
pub proof fn law_highest_priority_wins(cands: Seq<(Seq<char>, u32, bool)>)
    ensures
        best_match(cands).1 == 0 ==> best_match(cands).0 == unknown_title() && forall|j: int|
            0 <= j < cands.len() && (#[trigger] cands[j]).2 ==> cands[j].1 == 0,
        best_match(cands).1 > 0 ==> exists|i: int|
            #![trigger cands[i]]
            0 <= i < cands.len() && cands[i].2 && cands[i].0 == best_match(cands).0 && cands[i].1
                == best_match(cands).1 && (forall|j: int|
                0 <= j < cands.len() && (#[trigger] cands[j]).2 ==> cands[j].1 <= cands[i].1) && (
            forall|j: int| 0 <= j < i && (#[trigger] cands[j]).2 ==> cands[j].1 < cands[i].1),
    decreases cands.len(),
{
    if cands.len() > 0 {
        let init = cands.drop_last();
        law_highest_priority_wins(init);
        let prev = best_match(init);
        let c = cands.last();
        let last = cands.len() - 1;
        assert(forall|j: int| 0 <= j < init.len() ==> init[j] == cands[j]);
        if c.2 && c.1 > prev.1 {
            assert(cands[last] == c);
            if prev.1 > 0 {
                let i = choose|i: int|
                    #![trigger init[i]]
                    0 <= i < init.len() && init[i].2 && init[i].0 == prev.0 && init[i].1 == prev.1
                        && (forall|j: int|
                        0 <= j < init.len() && (#[trigger] init[j]).2 ==> init[j].1 <= init[i].1)
                        && (forall|j: int|
                        0 <= j < i && (#[trigger] init[j]).2 ==> init[j].1 < init[i].1);
                assert(forall|j: int| 0 <= j < init.len() && (#[trigger] cands[j]).2 ==> cands[j].1 <= prev.1) by {
                    assert forall|j: int| 0 <= j < init.len() && (#[trigger] cands[j]).2 implies cands[j].1 <= prev.1 by {
                        assert(init[j] == cands[j]);
                    }
                }
            }
            assert(forall|j: int| 0 <= j < last && (#[trigger] cands[j]).2 ==> cands[j].1 < c.1) by {
                assert forall|j: int| 0 <= j < last && (#[trigger] cands[j]).2 implies cands[j].1 < c.1 by {
                    assert(init[j] == cands[j]);
                    if prev.1 == 0 {
                    } else {
                        let i = choose|i: int|
                            #![trigger init[i]]
                            0 <= i < init.len() && init[i].2 && init[i].0 == prev.0 && init[i].1 == prev.1
                                && (forall|j: int|
                                0 <= j < init.len() && (#[trigger] init[j]).2 ==> init[j].1 <= init[i].1)
                                && (forall|j: int|
                                0 <= j < i && (#[trigger] init[j]).2 ==> init[j].1 < init[i].1);
                    }
                }
            }
        } else {
            if prev.1 > 0 {
                let i = choose|i: int|
                    #![trigger init[i]]
                    0 <= i < init.len() && init[i].2 && init[i].0 == prev.0 && init[i].1 == prev.1
                        && (forall|j: int|
                        0 <= j < init.len() && (#[trigger] init[j]).2 ==> init[j].1 <= init[i].1)
                        && (forall|j: int|
                        0 <= j < i && (#[trigger] init[j]).2 ==> init[j].1 < init[i].1);
                assert(cands[i] == init[i]);
                assert forall|j: int| 0 <= j < cands.len() && (#[trigger] cands[j]).2 implies cands[j].1 <= cands[i].1 by {
                    if j < last {
                        assert(init[j] == cands[j]);
                    }
                }
                assert forall|j: int| 0 <= j < i && (#[trigger] cands[j]).2 implies cands[j].1 < cands[i].1 by {
                    assert(init[j] == cands[j]);
                }
            } else {
                assert forall|j: int| 0 <= j < cands.len() && (#[trigger] cands[j]).2 implies cands[j].1 == 0 by {
                    if j < last {
                        assert(init[j] == cands[j]);
                    }
                }
            }
        }
    }
}

/// Where no two candidates share a priority, the choice depends only on which
/// candidates there are, not on their order.
pub proof fn law_candidate_order_irrelevant(
    c1: Seq<(Seq<char>, u32, bool)>,
    c2: Seq<(Seq<char>, u32, bool)>,
)
    requires
        forall|x: (Seq<char>, u32, bool)| c1.contains(x) <==> c2.contains(x),
        forall|i: int, j: int| 0 <= i < j < c1.len() ==> c1[i].1 != c1[j].1,
        forall|i: int, j: int| 0 <= i < j < c2.len() ==> c2[i].1 != c2[j].1,
    ensures
        best_match(c1) == best_match(c2),
{
    law_highest_priority_wins(c1);
    law_highest_priority_wins(c2);
    let b1 = best_match(c1);
    let b2 = best_match(c2);
    if b1.1 == 0 && b2.1 > 0 {
        let i2 = choose|i: int|
            #![trigger c2[i]]
            0 <= i < c2.len() && c2[i].2 && c2[i].0 == b2.0 && c2[i].1 == b2.1 && (forall|j: int|
                0 <= j < c2.len() && (#[trigger] c2[j]).2 ==> c2[j].1 <= c2[i].1) && (forall|j: int|
                0 <= j < i && (#[trigger] c2[j]).2 ==> c2[j].1 < c2[i].1);
        assert(c2.contains(c2[i2]));
        let j1 = choose|j: int| 0 <= j < c1.len() && c1[j] == c2[i2];
        assert(c1[j1].2);
    } else if b2.1 == 0 && b1.1 > 0 {
        let i1 = choose|i: int|
            #![trigger c1[i]]
            0 <= i < c1.len() && c1[i].2 && c1[i].0 == b1.0 && c1[i].1 == b1.1 && (forall|j: int|
                0 <= j < c1.len() && (#[trigger] c1[j]).2 ==> c1[j].1 <= c1[i].1) && (forall|j: int|
                0 <= j < i && (#[trigger] c1[j]).2 ==> c1[j].1 < c1[i].1);
        assert(c1.contains(c1[i1]));
        let j2 = choose|j: int| 0 <= j < c2.len() && c2[j] == c1[i1];
        assert(c2[j2].2);
    } else if b1.1 > 0 && b2.1 > 0 {
        let i1 = choose|i: int|
            #![trigger c1[i]]
            0 <= i < c1.len() && c1[i].2 && c1[i].0 == b1.0 && c1[i].1 == b1.1 && (forall|j: int|
                0 <= j < c1.len() && (#[trigger] c1[j]).2 ==> c1[j].1 <= c1[i].1) && (forall|j: int|
                0 <= j < i && (#[trigger] c1[j]).2 ==> c1[j].1 < c1[i].1);
        let i2 = choose|i: int|
            #![trigger c2[i]]
            0 <= i < c2.len() && c2[i].2 && c2[i].0 == b2.0 && c2[i].1 == b2.1 && (forall|j: int|
                0 <= j < c2.len() && (#[trigger] c2[j]).2 ==> c2[j].1 <= c2[i].1) && (forall|j: int|
                0 <= j < i && (#[trigger] c2[j]).2 ==> c2[j].1 < c2[i].1);
        assert(c1.contains(c1[i1]));
        assert(c2.contains(c2[i2]));
        let j2 = choose|j: int| 0 <= j < c2.len() && c2[j] == c1[i1];
        let j1 = choose|j: int| 0 <= j < c1.len() && c1[j] == c2[i2];
        assert(c2[j2].2 && c1[j1].2);
        assert(c1[i1].1 == c2[i2].1);
        if j2 != i2 {
            if j2 < i2 {
                assert(c2[j2].1 != c2[i2].1);
            } else {
                assert(c2[i2].1 != c2[j2].1);
            }
        }
    }
}

/// Where no two rules share a priority, the category of a description depends
/// only on which rules there are, not on their order.
pub proof fn law_rule_order_irrelevant(
    rules1: Seq<(Seq<char>, Seq<Seq<char>>, u32)>,
    rules2: Seq<(Seq<char>, Seq<Seq<char>>, u32)>,
    description: Seq<char>,
)
    requires
        forall|r: (Seq<char>, Seq<Seq<char>>, u32)| rules1.contains(r) <==> rules2.contains(r),
        forall|i: int, j: int| 0 <= i < j < rules1.len() ==> rules1[i].2 != rules1[j].2,
        forall|i: int, j: int| 0 <= i < j < rules2.len() ==> rules2[i].2 != rules2[j].2,
    ensures
        categorize_spec(rules1, description) == categorize_spec(rules2, description),
{
    let ld = lowercase(description);
    let c1 = candidates(rules1, keywords_in_lower_case(rules1), ld);
    let c2 = candidates(rules2, keywords_in_lower_case(rules2), ld);
    assert forall|i: int| 0 <= i < rules1.len() implies #[trigger] c1[i] == candidate_of(rules1[i], ld) by {}
    assert forall|i: int| 0 <= i < rules2.len() implies #[trigger] c2[i] == candidate_of(rules2[i], ld) by {}
    assert forall|x: (Seq<char>, u32, bool)| c1.contains(x) <==> c2.contains(x) by {
        if c1.contains(x) {
            let i = choose|i: int| 0 <= i < c1.len() && c1[i] == x;
            assert(rules1.contains(rules1[i]));
            let j = choose|j: int| 0 <= j < rules2.len() && rules2[j] == rules1[i];
            assert(c2[j] == x);
        }
        if c2.contains(x) {
            let i = choose|i: int| 0 <= i < c2.len() && c2[i] == x;
            assert(rules2.contains(rules2[i]));
            let j = choose|j: int| 0 <= j < rules1.len() && rules1[j] == rules2[i];
            assert(c1[j] == x);
        }
    }
    law_candidate_order_irrelevant(c1, c2);
}

/// The candidate a rule gives for a description already in lower case.
pub open spec fn candidate_of(rule: (Seq<char>, Seq<Seq<char>>, u32), lowered: Seq<char>) -> (
    Seq<char>,
    u32,
    bool,
) {
    (rule.0, rule.2, keyword_hit(rule.1.map_values(|k: Seq<char>| lowercase(k)), lowered))
}

/// Letter case does not matter: descriptions with the same lower case get the
/// same category.
pub proof fn law_case_irrelevant(
    rules: Seq<(Seq<char>, Seq<Seq<char>>, u32)>,
    d1: Seq<char>,
    d2: Seq<char>,
)
    requires
        lowercase(d1) == lowercase(d2),
    ensures
        categorize_spec(rules, d1) == categorize_spec(rules, d2),
{
}

/// A rule with a priority above zero and a keyword that occurs in the
/// description (both lower-cased), however short the keyword, is matched: the
/// category chosen is the title of a rule with a keyword that occurs in the
/// description and a priority no lower.
pub proof fn law_occurring_keyword_matches(
    rules: Seq<(Seq<char>, Seq<Seq<char>>, u32)>,
    description: Seq<char>,
    i: int,
    j: int,
)
    requires
        0 <= i < rules.len(),
        0 <= j < rules[i].1.len(),
        rules[i].2 > 0,
        is_substring(lowercase(rules[i].1[j]), lowercase(description)),
    ensures
        exists|k: int|
            0 <= k < rules.len() && rules[k].0 == categorize_spec(rules, description) && rules[k].2
                >= rules[i].2 && exists|jj: int|
                0 <= jj < rules[k].1.len() && #[trigger] is_substring(
                    lowercase(rules[k].1[jj]),
                    lowercase(description),
                ),
{
    let ld = lowercase(description);
    let lk = keywords_in_lower_case(rules);
    let cands = candidates(rules, lk, ld);
    assert(lk[i][j] == lowercase(rules[i].1[j]));
    assert(cands[i].2);
    law_highest_priority_wins(cands);
    let b = best_match(cands);
    assert(cands[i].1 <= b.1);
    let k = choose|k: int|
        #![trigger cands[k]]
        0 <= k < cands.len() && cands[k].2 && cands[k].0 == b.0 && cands[k].1 == b.1 && (forall|
            jx: int,
        | 0 <= jx < cands.len() && (#[trigger] cands[jx]).2 ==> cands[jx].1 <= cands[k].1) && (
        forall|jx: int| 0 <= jx < k && (#[trigger] cands[jx]).2 ==> cands[jx].1 < cands[k].1);
    let jj = choose|jj: int| 0 <= jj < lk[k].len() && is_substring(#[trigger] lk[k][jj], ld);
    assert(lk[k][jj] == lowercase(rules[k].1[jj]));
}

/// With one rule whose priority is above zero, a description in which one of
/// its keywords occurs (lower-cased) gets that rule's title.
pub proof fn law_single_rule_matches(
    rule: (Seq<char>, Seq<Seq<char>>, u32),
    description: Seq<char>,
    j: int,
)
    requires
        0 <= j < rule.1.len(),
        rule.2 > 0,
        is_substring(lowercase(rule.1[j]), lowercase(description)),
    ensures
        categorize_spec(seq![rule], description) == rule.0,
{
    law_occurring_keyword_matches(seq![rule], description, 0, j);
}

} // verus!
