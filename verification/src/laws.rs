use vstd::prelude::*;
use crate::QuizError;
use crate::global::{
    correct_step, hits_wrong_combo, remaining_vals, selected_rel, wrong_step, QuestionModel,
};
use crate::response::QuestionFormat;

verus! {

/// The knowledge left after a run of attempts in which, each time, the
/// selector picked the given candidate and the reconciliation fell into the
/// equality-proves-all-wrong branch.
pub open spec fn run_wrong_steps(m: QuestionModel, picks: Seq<Seq<char>>) -> QuestionModel
    decreases picks.len(),
{
    if picks.len() == 0 {
        m
    } else {
        run_wrong_steps(
            wrong_step(QuestionModel { chosen: seq![picks[0]], ..m }),
            picks.drop_first(),
        )
    }
}

/// Whether each pick is a candidate at its stage: a catalog value not yet
/// confirmed wrong, exactly what the selector guarantees to submit.
pub open spec fn picks_valid(m: QuestionModel, picks: Seq<Seq<char>>) -> bool
    decreases picks.len(),
{
    picks.len() == 0 || {
        &&& remaining_vals(m.catalog, m.wrong).contains(picks[0])
        &&& picks_valid(
            wrong_step(QuestionModel { chosen: seq![picks[0]], ..m }),
            picks.drop_first(),
        )
    }
}

/// The values of `s` other than `p`.
pub open spec fn drop_val(s: Seq<Seq<char>>, p: Seq<char>) -> Seq<Seq<char>> {
    s.filter(|v: Seq<char>| v != p)
}

/// Confirming one more value wrong shrinks the candidate list to the
/// candidates other than that value.
proof fn lemma_remaining_extend(catalog: Seq<Seq<char>>, wrong: Seq<Seq<char>>, p: Seq<char>)
    ensures
        remaining_vals(catalog, wrong + seq![p]) == drop_val(remaining_vals(catalog, wrong), p),
    decreases catalog.len(),
{
    reveal(Seq::filter);
    let w2 = wrong + seq![p];
    assert forall|v: Seq<char>| #[trigger] w2.contains(v) implies wrong.contains(v) || v == p by {
        let i = choose|i: int| 0 <= i < w2.len() && w2[i] == v;
        if i < wrong.len() {
            assert(wrong[i] == v);
        }
    }
    assert forall|v: Seq<char>| wrong.contains(v) || v == p implies #[trigger] w2.contains(v) by {
        if wrong.contains(v) {
            let i = choose|i: int| 0 <= i < wrong.len() && wrong[i] == v;
            assert(w2[i] == v);
        } else {
            assert(w2[wrong.len() as int] == v);
        }
    }
    if catalog.len() == 0 {
        assert(remaining_vals(catalog, w2) =~= drop_val(remaining_vals(catalog, wrong), p));
    } else {
        let t = catalog.drop_last();
        let last = catalog.last();
        lemma_remaining_extend(t, wrong, p);
        let r1 = remaining_vals(t, wrong);
        if !wrong.contains(last) {
            assert(remaining_vals(catalog, wrong) == r1.push(last));
            assert(r1.push(last).drop_last() =~= r1);
            assert(drop_val(r1.push(last), p) == drop_val(r1, p) + (if last != p {
                seq![last]
            } else {
                Seq::<Seq<char>>::empty()
            }));
        }
        assert(remaining_vals(catalog, w2) =~= drop_val(remaining_vals(catalog, wrong), p));
    }
}

/// Dropping an absent value changes nothing.
proof fn lemma_drop_val_absent(s: Seq<Seq<char>>, p: Seq<char>)
    requires
        !s.contains(p),
    ensures
        drop_val(s, p) == s,
    decreases s.len(),
{
    reveal(Seq::filter);
    if s.len() == 0 {
        assert(drop_val(s, p) =~= s);
    } else {
        let t = s.drop_last();
        assert(!t.contains(p)) by {
            if t.contains(p) {
                let i = choose|i: int| 0 <= i < t.len() && t[i] == p;
                assert(s[i] == p);
            }
        }
        assert(s.last() != p) by {
            if s.last() == p {
                assert(s[s.len() - 1] == p);
            }
        }
        lemma_drop_val_absent(t, p);
        assert(drop_val(s, p) =~= s);
    }
}

/// Dropping a value that occurs in a duplicate-free list removes exactly
/// one element.
proof fn lemma_drop_val_len(s: Seq<Seq<char>>, p: Seq<char>)
    requires
        s.no_duplicates(),
        s.contains(p),
    ensures
        drop_val(s, p).len() == s.len() - 1,
    decreases s.len(),
{
    reveal(Seq::filter);
    let t = s.drop_last();
    assert(t.no_duplicates());
    if s.last() == p {
        assert(!t.contains(p)) by {
            if t.contains(p) {
                let i = choose|i: int| 0 <= i < t.len() && t[i] == p;
                assert(s[i] == p && s[s.len() - 1] == p);
            }
        }
        lemma_drop_val_absent(t, p);
    } else {
        assert(t.contains(p)) by {
            let i = choose|i: int| 0 <= i < s.len() && s[i] == p;
            assert(i < s.len() - 1);
            assert(t[i] == p);
        }
        lemma_drop_val_len(t, p);
    }
}

/// The candidate list of a duplicate-free catalog is itself duplicate-free,
/// and made of catalog values.
proof fn lemma_remaining_no_dup(catalog: Seq<Seq<char>>, wrong: Seq<Seq<char>>)
    requires
        catalog.no_duplicates(),
    ensures
        remaining_vals(catalog, wrong).no_duplicates(),
        forall|x: Seq<char>| #[trigger] remaining_vals(catalog, wrong).contains(x)
            ==> catalog.contains(x),
    decreases catalog.len(),
{
    reveal(Seq::filter);
    if catalog.len() == 0 {
    } else {
        let t = catalog.drop_last();
        let last = catalog.last();
        assert(t.no_duplicates());
        lemma_remaining_no_dup(t, wrong);
        let r1 = remaining_vals(t, wrong);
        assert forall|x: Seq<char>| #[trigger] r1.contains(x) implies catalog.contains(x) by {
            assert(t.contains(x));
            let i = choose|i: int| 0 <= i < t.len() && t[i] == x;
            assert(catalog[i] == x);
        }
        if !wrong.contains(last) {
            assert(remaining_vals(catalog, wrong) == r1.push(last));
            assert(!t.contains(last)) by {
                if t.contains(last) {
                    let i = choose|i: int| 0 <= i < t.len() && t[i] == last;
                    assert(catalog[i] == catalog[catalog.len() - 1]);
                }
            }
            assert(r1.push(last).no_duplicates()) by {
                assert(!r1.contains(last));
                assert forall|i: int, j: int|
                    0 <= i < j < r1.push(last).len() implies r1.push(last)[i] != r1.push(
                    last,
                )[j] by {
                    if j < r1.len() {
                    } else {
                        assert(r1.contains(r1[i]));
                    }
                }
            }
            assert forall|x: Seq<char>|
                #[trigger] remaining_vals(catalog, wrong).contains(x) implies catalog.contains(
                x,
            ) by {
                let i = choose|i: int|
                    0 <= i < r1.push(last).len() && r1.push(last)[i] == x;
                if i < r1.len() {
                    assert(r1.contains(x));
                } else {
                    assert(catalog.contains(last)) by {
                        assert(catalog[catalog.len() - 1] == last);
                    }
                }
            }
        } else {
            assert(remaining_vals(catalog, wrong) == r1);
        }
    }
}

/// Law: once the correct answer of a question is known, any further run of
/// wrong-branch reconciliations leaves it untouched.
pub proof fn lemma_known_stays_known(m: QuestionModel, picks: Seq<Seq<char>>)
    requires
        m.correct.len() > 0,
    ensures
        run_wrong_steps(m, picks).correct == m.correct,
    decreases picks.len(),
{
    if picks.len() > 0 {
        let m0 = QuestionModel { chosen: seq![picks[0]], ..m };
        assert(wrong_step(m0) == m0);
        lemma_known_stays_known(m0, picks.drop_first());
    }
}

/// Law (elimination convergence): a single-answer question with a
/// duplicate-free catalog and `k >= 2` untried candidates reaches a
/// confirmed correct answer after exactly `k - 1` attempts in which the
/// selector picks a candidate and the reconciliation falls into the
/// equality-proves-all-wrong branch. The answer promoted is exactly the one
/// candidate never submitted.
pub proof fn lemma_elimination_convergence(m: QuestionModel, picks: Seq<Seq<char>>)
    requires
        m.format == QuestionFormat::MultiChoiceSingleAnswer,
        m.correct.len() == 0,
        m.catalog.no_duplicates(),
        remaining_vals(m.catalog, m.wrong).len() >= 2,
        picks.len() + 1 == remaining_vals(m.catalog, m.wrong).len(),
        picks_valid(m, picks),
    ensures
        run_wrong_steps(m, picks).correct == remaining_vals(m.catalog, m.wrong + picks),
        remaining_vals(m.catalog, m.wrong + picks).len() == 1,
    decreases picks.len(),
{
    let rem = remaining_vals(m.catalog, m.wrong);
    let p = picks[0];
    let m0 = QuestionModel { chosen: seq![p], ..m };
    let m1 = wrong_step(m0);
    assert(m0.wrong + m0.chosen =~= m.wrong + seq![p]);
    lemma_remaining_extend(m.catalog, m.wrong, p);
    lemma_remaining_no_dup(m.catalog, m.wrong);
    lemma_drop_val_len(rem, p);
    let rem2 = remaining_vals(m.catalog, m.wrong + seq![p]);
    assert(rem2.len() == rem.len() - 1);
    assert(run_wrong_steps(m, picks) == run_wrong_steps(m1, picks.drop_first()));
    if rem2.len() == 1 {
        assert(m1.correct == rem2);
        assert(picks.drop_first().len() == 0);
        assert(run_wrong_steps(m1, picks.drop_first()) == m1);
        assert(m.wrong + picks =~= m.wrong + seq![p]);
    } else {
        assert(m1.correct.len() == 0 && m1.wrong == m.wrong + seq![p] && m1.catalog == m.catalog
            && m1.format == m.format);
        lemma_elimination_convergence(m1, picks.drop_first());
        assert((m.wrong + seq![p]) + picks.drop_first() =~= m.wrong + picks);
    }
}

/// A candidate is a catalog value outside the confirmed-wrong set.
proof fn lemma_remaining_membership(catalog: Seq<Seq<char>>, wrong: Seq<Seq<char>>, x: Seq<char>)
    requires
        remaining_vals(catalog, wrong).contains(x),
    ensures
        catalog.contains(x),
        !wrong.contains(x),
    decreases catalog.len(),
{
    reveal(Seq::filter);
    if catalog.len() > 0 {
        let t = catalog.drop_last();
        let last = catalog.last();
        let r1 = remaining_vals(t, wrong);
        let r = remaining_vals(catalog, wrong);
        if !wrong.contains(last) && x == last {
            assert(catalog[catalog.len() - 1] == x);
        } else {
            assert(r1.contains(x)) by {
                let i = choose|i: int| 0 <= i < r.len() && r[i] == x;
                if !wrong.contains(last) {
                    assert(i < r1.len());
                    assert(r1[i] == x);
                }
            }
            lemma_remaining_membership(t, wrong, x);
            let j = choose|j: int| 0 <= j < t.len() && t[j] == x;
            assert(catalog[j] == x);
        }
    }
}

/// Law (non-repetition): whatever the selector returns for a question whose
/// answer is unknown, a single-answer pick is never a choice confirmed
/// wrong, and a multiple-answer pick never equals a combination confirmed
/// wrong.
pub proof fn lemma_non_repetition(m: QuestionModel, m2: QuestionModel, r: Result<(), QuizError>)
    requires
        m.correct.len() == 0,
        r is Ok,
        selected_rel(m, m2, r),
    ensures
        m.format == QuestionFormat::MultiChoiceSingleAnswer ==> forall|j: int|
            0 <= j < m2.chosen.len() ==> !m.wrong.contains(#[trigger] m2.chosen[j]),
        m.format != QuestionFormat::MultiChoiceSingleAnswer ==> !hits_wrong_combo(
            m.wrong_combos,
            m2.chosen,
        ),
{
    if m.format == QuestionFormat::MultiChoiceSingleAnswer {
        lemma_remaining_membership(m.catalog, m.wrong, m2.chosen[0]);
        assert forall|j: int|
            0 <= j < m2.chosen.len() implies !m.wrong.contains(#[trigger] m2.chosen[j]) by {
            assert(m2.chosen[j] == m2.chosen[0]);
        }
    }
}

/// Law (monotonicity): once `known_correct` is set, the selector returns
/// exactly it — whatever catalog is offered — and neither reconciliation
/// branch alters it afterwards.
pub proof fn lemma_monotonic_knowledge(
    m: QuestionModel,
    m2: QuestionModel,
    r: Result<(), QuizError>,
)
    requires
        m.correct.len() > 0,
        selected_rel(m, m2, r),
    ensures
        r is Ok,
        m2.chosen == m.correct,
        wrong_step(m2).correct == m.correct,
        correct_step(m2).correct == m.correct,
{
}

/// Law (idempotent persistence): persisting the same knowledge under the
/// same identifier twice leaves the store exactly as persisting it once
/// does — one record for that identifier, holding the latest value.
pub proof fn lemma_idempotent_persistence(
    stored: Map<Seq<char>, QuestionModel>,
    useful_id: Seq<char>,
    knowledge: QuestionModel,
)
    ensures
        stored.insert(useful_id, knowledge).insert(useful_id, knowledge) == stored.insert(
            useful_id,
            knowledge,
        ),
{
    assert(stored.insert(useful_id, knowledge).insert(useful_id, knowledge) =~= stored.insert(
        useful_id,
        knowledge,
    ));
}

} // verus!
