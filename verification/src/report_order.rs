//! The report order of lint issues is a total preorder, and sorting a
//! report puts its issues in that order while keeping every issue.

use crate::lint::{
    comp_order, comps_order, insert_in_order, int_order, issue_order, line_order, path_components,
    path_order, severity_rank, sorted_issues, text_order, IssueV, PathComp, ViolationV,
};
use vstd::multiset::Multiset;
use vstd::prelude::*;

verus! {

/// Whether the issues are in report order: no issue comes after a later one.
pub open spec fn in_report_order(s: Seq<IssueV>) -> bool {
    forall|i: int, j: int| 0 <= i < j < s.len() ==> issue_order(#[trigger] s[i], #[trigger] s[j]) <= 0
}

proof fn lemma_text_order(a: Seq<char>, b: Seq<char>, c: Seq<char>)
    ensures
        text_order(a, b) == -text_order(b, a),
        -1 <= text_order(a, b) <= 1,
        text_order(a, b) == 0 ==> a == b,
        text_order(a, b) < 0 && text_order(b, c) < 0 ==> text_order(a, c) < 0,
    decreases a.len(),
{
    if a.len() > 0 && b.len() > 0 {
        lemma_text_order(a.drop_first(), b.drop_first(), if c.len() > 0 {
            c.drop_first()
        } else {
            c
        });
        if a[0] != b[0] {
            vstd::utf8::char_u32_cast(a[0], a[0] as u32);
            vstd::utf8::char_u32_cast(b[0], b[0] as u32);
        } else if text_order(a.drop_first(), b.drop_first()) == 0 {
            assert(a =~= seq![a[0]] + a.drop_first());
            assert(b =~= seq![b[0]] + b.drop_first());
        }
    } else if a.len() == 0 && b.len() == 0 {
        assert(a =~= b);
    }
}

proof fn lemma_comp_order(a: PathComp, b: PathComp, c: PathComp)
    ensures
        comp_order(a, b) == -comp_order(b, a),
        -1 <= comp_order(a, b) <= 1,
        comp_order(a, b) == 0 ==> a == b,
        comp_order(a, b) < 0 && comp_order(b, c) < 0 ==> comp_order(a, c) < 0,
{
    lemma_text_order(a.1, b.1, c.1);
}

proof fn lemma_comps_order(a: Seq<PathComp>, b: Seq<PathComp>, c: Seq<PathComp>)
    ensures
        comps_order(a, b) == -comps_order(b, a),
        -1 <= comps_order(a, b) <= 1,
        comps_order(a, b) == 0 ==> a == b,
        comps_order(a, b) < 0 && comps_order(b, c) < 0 ==> comps_order(a, c) < 0,
    decreases a.len(),
{
    if a.len() > 0 && b.len() > 0 {
        let c1 = if c.len() > 0 {
            c.drop_first()
        } else {
            c
        };
        lemma_comps_order(a.drop_first(), b.drop_first(), c1);
        if c.len() > 0 {
            lemma_comp_order(a[0], b[0], c[0]);
            lemma_comp_order(b[0], c[0], a[0]);
            lemma_comp_order(a[0], c[0], b[0]);
        } else {
            lemma_comp_order(a[0], b[0], a[0]);
        }
        if comp_order(a[0], b[0]) == 0 && comps_order(a.drop_first(), b.drop_first()) == 0 {
            assert(a =~= seq![a[0]] + a.drop_first());
            assert(b =~= seq![b[0]] + b.drop_first());
        }
    } else if a.len() == 0 && b.len() == 0 {
        assert(a =~= b);
    }
}

/// Paths are ordered by their components.
pub open spec fn path_key(p: Option<Seq<char>>) -> Option<Seq<PathComp>> {
    match p {
        Some(q) => Some(path_components(q)),
        None => None,
    }
}

proof fn lemma_path_order(a: Option<Seq<char>>, b: Option<Seq<char>>, c: Option<Seq<char>>)
    ensures
        path_order(a, b) == -path_order(b, a),
        -1 <= path_order(a, b) <= 1,
        path_order(a, b) == 0 ==> path_key(a) == path_key(b) && path_order(a, c) == path_order(b, c),
        path_order(a, b) < 0 && path_order(b, c) < 0 ==> path_order(a, c) < 0,
{
    match (a, b) {
        (Some(p), Some(q)) => {
            match c {
                Some(r) => {
                    lemma_comps_order(path_components(p), path_components(q), path_components(r));
                    lemma_comps_order(path_components(p), path_components(r), path_components(q));
                    lemma_comps_order(path_components(q), path_components(r), path_components(p));
                },
                None => {
                    lemma_comps_order(path_components(p), path_components(q), path_components(p));
                },
            }
        },
        _ => {},
    }
}

proof fn lemma_line_order(a: Option<usize>, b: Option<usize>, c: Option<usize>)
    ensures
        line_order(a, b) == -line_order(b, a),
        -1 <= line_order(a, b) <= 1,
        line_order(a, b) == 0 ==> a == b,
        line_order(a, b) < 0 && line_order(b, c) < 0 ==> line_order(a, c) < 0,
{
}

/// The report order is antisymmetric and transitive.
pub proof fn lemma_issue_order(a: IssueV, b: IssueV, c: IssueV)
    ensures
        issue_order(a, b) == -issue_order(b, a),
        issue_order(a, b) <= 0 && issue_order(b, c) <= 0 ==> issue_order(a, c) <= 0,
{
    lemma_path_order(a.path, b.path, c.path);
    lemma_path_order(b.path, c.path, a.path);
    lemma_path_order(a.path, c.path, b.path);
    lemma_path_order(b.path, a.path, c.path);
    lemma_line_order(a.line, b.line, c.line);
    lemma_line_order(b.line, c.line, a.line);
    lemma_line_order(a.line, c.line, b.line);
    assert(severity_rank(a.severity) == severity_rank(b.severity) ==> a.severity == b.severity);
    assert(severity_rank(b.severity) == severity_rank(c.severity) ==> b.severity == c.severity);
    assert(severity_rank(a.severity) == severity_rank(c.severity) ==> a.severity == c.severity);
}

proof fn lemma_insert_bounded(s: Seq<IssueV>, x: IssueV, u: IssueV)
    requires
        forall|i: int| 0 <= i < s.len() ==> issue_order(#[trigger] s[i], u) <= 0,
        issue_order(x, u) <= 0,
    ensures
        forall|i: int| 0 <= i < insert_in_order(s, x).len() ==> issue_order(#[trigger] insert_in_order(s, x)[i], u) <= 0,
        insert_in_order(s, x).len() == s.len() + 1,
    decreases s.len(),
{
    if s.len() > 0 && issue_order(s.last(), x) > 0 {
        lemma_insert_bounded(s.drop_last(), x, u);
    }
}

proof fn lemma_insert_sorted(s: Seq<IssueV>, x: IssueV)
    requires
        in_report_order(s),
    ensures
        in_report_order(insert_in_order(s, x)),
        insert_in_order(s, x).to_multiset() == s.to_multiset().insert(x),
    decreases s.len(),
{
    broadcast use vstd::seq_lib::group_to_multiset_ensures;

    if s.len() == 0 {
        assert(insert_in_order(s, x) =~= seq![x]);
        assert(seq![x] =~= Seq::<IssueV>::empty().push(x));
    } else {
        let l = s.last();
        let init = s.drop_last();
        assert(init.push(l) =~= s);
        if issue_order(l, x) > 0 {
            lemma_insert_sorted(init, x);
            lemma_issue_order(x, l, x);
            assert forall|i: int| 0 <= i < init.len() implies issue_order(#[trigger] init[i], l) <= 0 by {
                assert(s[i] == init[i]);
            }
            lemma_insert_bounded(init, x, l);
            let r = insert_in_order(init, x);
            assert(insert_in_order(s, x) == r.push(l));
            assert forall|i: int, j: int| 0 <= i < j < r.push(l).len() implies issue_order(
                #[trigger] r.push(l)[i],
                #[trigger] r.push(l)[j],
            ) <= 0 by {
                if j == r.len() {
                    assert(r.push(l)[i] == r[i]);
                } else {
                    assert(r.push(l)[i] == r[i] && r.push(l)[j] == r[j]);
                }
            }
            assert(r.push(l).to_multiset() =~= s.to_multiset().insert(x));
        } else {
            assert forall|i: int, j: int| 0 <= i < j < s.push(x).len() implies issue_order(
                #[trigger] s.push(x)[i],
                #[trigger] s.push(x)[j],
            ) <= 0 by {
                if j == s.len() {
                    if i < s.len() - 1 {
                        lemma_issue_order(s[i], l, x);
                    }
                } else {
                    assert(s.push(x)[i] == s[i] && s.push(x)[j] == s[j]);
                }
            }
        }
    }
}

/// Sorting a report puts its issues in report order (severity from error
/// down to info, then path, then line) and keeps every issue, as often as
/// it occurred.
pub proof fn law_sorted_issues(s: Seq<IssueV>)
    ensures
        in_report_order(sorted_issues(s)),
        sorted_issues(s).to_multiset() == s.to_multiset(),
    decreases s.len(),
{
    broadcast use vstd::seq_lib::group_to_multiset_ensures;

    if s.len() == 0 {
        assert(s.to_multiset() =~= Seq::<IssueV>::empty().to_multiset());
    } else {
        law_sorted_issues(s.drop_last());
        lemma_insert_sorted(sorted_issues(s.drop_last()), s.last());
        assert(s.drop_last().push(s.last()) =~= s);
    }
}

/// A total order on rule violations: by message, then line, column, rule
/// id, rule name and severity.
pub open spec fn viol_order(a: ViolationV, b: ViolationV) -> int {
    if text_order(a.message, b.message) != 0 {
        text_order(a.message, b.message)
    } else if a.line != b.line {
        int_order(a.line as int, b.line as int)
    } else if a.column != b.column {
        int_order(a.column as int, b.column as int)
    } else if text_order(a.rule_id, b.rule_id) != 0 {
        text_order(a.rule_id, b.rule_id)
    } else if text_order(a.rule_name, b.rule_name) != 0 {
        text_order(a.rule_name, b.rule_name)
    } else {
        int_order(severity_rank(a.severity), severity_rank(b.severity))
    }
}

/// Whether no violation comes after a later one.
pub open spec fn viols_sorted(s: Seq<ViolationV>) -> bool {
    forall|i: int, j: int| 0 <= i < j < s.len() ==> viol_order(#[trigger] s[i], #[trigger] s[j]) <= 0
}

/// The violations of a multiset in violation order.
pub open spec fn sorted_viols(m: Multiset<ViolationV>) -> Seq<ViolationV> {
    choose|s: Seq<ViolationV>| viols_sorted(s) && s.to_multiset() == m
}

proof fn lemma_texts(a: Seq<char>, b: Seq<char>, c: Seq<char>)
    ensures
        text_order(a, b) == -text_order(b, a),
        text_order(a, b) == 0 ==> a == b,
        text_order(a, b) < 0 && text_order(b, c) < 0 ==> text_order(a, c) < 0,
{
    lemma_text_order(a, b, c);
}

/// The violation order is antisymmetric, transitive, and only equal
/// violations compare equal.
pub proof fn lemma_viol_order(a: ViolationV, b: ViolationV, c: ViolationV)
    ensures
        viol_order(a, b) == -viol_order(b, a),
        viol_order(a, b) == 0 ==> a == b,
        viol_order(a, b) <= 0 && viol_order(b, c) <= 0 ==> viol_order(a, c) <= 0,
{
    lemma_texts(a.message, b.message, c.message);
    lemma_texts(b.message, c.message, a.message);
    lemma_texts(a.message, c.message, b.message);
    lemma_texts(a.rule_id, b.rule_id, c.rule_id);
    lemma_texts(b.rule_id, c.rule_id, a.rule_id);
    lemma_texts(a.rule_id, c.rule_id, b.rule_id);
    lemma_texts(a.rule_name, b.rule_name, c.rule_name);
    lemma_texts(b.rule_name, c.rule_name, a.rule_name);
    lemma_texts(a.rule_name, c.rule_name, b.rule_name);
}

/// Two sorted sequences of violations holding the same violations are equal.
pub proof fn lemma_sorted_viols_unique(a: Seq<ViolationV>, b: Seq<ViolationV>)
    requires
        viols_sorted(a),
        viols_sorted(b),
        a.to_multiset() == b.to_multiset(),
    ensures
        a == b,
    decreases a.len(),
{
    broadcast use vstd::seq_lib::group_to_multiset_ensures;

    assert(a.to_multiset().len() == a.len());
    assert(b.to_multiset().len() == b.len());
    if a.len() == 0 {
        assert(b.len() == 0);
        assert(a =~= b);
    } else {
        assert(b.len() == a.len());
        let x = a[0];
        let y = b[0];
        assert(a.contains(x));
        assert(a.to_multiset().count(x) > 0);
        assert(b.to_multiset().count(x) > 0);
        assert(b.contains(x));
        assert(b.contains(y));
        assert(b.to_multiset().count(y) > 0);
        assert(a.to_multiset().count(y) > 0);
        let j = choose|j: int| 0 <= j < b.len() && b[j] == x;
        assert(a.contains(y));
        let i = choose|i: int| 0 <= i < a.len() && a[i] == y;
        if j > 0 {
            assert(viol_order(b[0], b[j]) <= 0);
        }
        if i > 0 {
            assert(viol_order(a[0], a[i]) <= 0);
        }
        lemma_viol_order(x, y, x);
        lemma_viol_order(y, x, y);
        assert(x == y);
        assert(a.remove(0) =~= a.drop_first());
        assert(b.remove(0) =~= b.drop_first());
        assert(a.drop_first().to_multiset() == a.to_multiset().remove(x));
        assert(b.drop_first().to_multiset() == b.to_multiset().remove(y));
        assert forall|p: int, q: int| 0 <= p < q < a.drop_first().len() implies viol_order(
            #[trigger] a.drop_first()[p],
            #[trigger] a.drop_first()[q],
        ) <= 0 by {
            assert(a.drop_first()[p] == a[p + 1] && a.drop_first()[q] == a[q + 1]);
        }
        assert forall|p: int, q: int| 0 <= p < q < b.drop_first().len() implies viol_order(
            #[trigger] b.drop_first()[p],
            #[trigger] b.drop_first()[q],
        ) <= 0 by {
            assert(b.drop_first()[p] == b[p + 1] && b.drop_first()[q] == b[q + 1]);
        }
        lemma_sorted_viols_unique(a.drop_first(), b.drop_first());
        assert forall|k: int| 0 <= k < a.len() implies a[k] == b[k] by {
            if k > 0 {
                assert(a.drop_first()[k - 1] == b.drop_first()[k - 1]);
            }
        }
        assert(a =~= b);
    }
}

/// A sorted sequence is the sorted form of its multiset.
pub proof fn lemma_sorted_viols_of(s: Seq<ViolationV>)
    requires
        viols_sorted(s),
    ensures
        sorted_viols(s.to_multiset()) == s,
{
    let t = sorted_viols(s.to_multiset());
    assert(viols_sorted(s) && s.to_multiset() == s.to_multiset());
    lemma_sorted_viols_unique(t, s);
}

} // verus!
