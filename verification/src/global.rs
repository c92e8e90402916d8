use vstd::prelude::*;
use rand::Rng;
use rand::seq::SliceRandom;
use crate::QuizError;
use crate::dict::StrDict;
use crate::response::{AnswerChoice, ChoiceView, QuestionFormat};
use vstd::arithmetic::power2::pow2;

verus! {

/// How many rejected random draws the multiple-answer selector tolerates
/// before it reports `ExhaustedCandidates`.
pub const MAX_REDRAWS: usize = 10000;

/// The choice values of a sequence of choices, in order.
pub open spec fn choice_vals(cs: Seq<AnswerChoice>) -> Seq<Seq<char>> {
    cs.map_values(|c: AnswerChoice| c.choice_value@)
}

/// The value sequences of a sequence of choice combinations, in order.
pub open spec fn combo_vals(cs: Seq<Vec<AnswerChoice>>) -> Seq<Seq<Seq<char>>> {
    cs.map_values(|v: Vec<AnswerChoice>| choice_vals(v@))
}

/// The catalog values that are not confirmed wrong: the candidates the
/// single-answer selector may still pick from.
pub open spec fn remaining_vals(catalog: Seq<Seq<char>>, wrong: Seq<Seq<char>>) -> Seq<Seq<char>> {
    catalog.filter(|v: Seq<char>| !wrong.contains(v))
}

/// Whether a stored wrong combination and a picked combination select the
/// same choices: same size, and every stored value occurs among the picked
/// values.
pub open spec fn combo_matches(stored: Seq<Seq<char>>, picked: Seq<Seq<char>>) -> bool {
    stored.len() == picked.len() && (forall|i: int|
        0 <= i < stored.len() ==> picked.contains(stored[i]))
}

/// Whether any stored wrong combination matches the picked combination.
pub open spec fn hits_wrong_combo(combos: Seq<Seq<Seq<char>>>, picked: Seq<Seq<char>>) -> bool {
    exists|i: int| 0 <= i < combos.len() && combo_matches(combos[i], picked)
}

/// The durable unit of learning about one question, keyed by `useful_id`.
pub struct MemoryStoreQuestion {
    pub useful_id: String,
    pub temp_id: String,
    pub format: QuestionFormat,
    /// The choice catalog offered this attempt.
    pub choices: Vec<AnswerChoice>,
    /// The confirmed correct answer, once known.
    pub correct_choices: Vec<AnswerChoice>,
    /// Choices individually confirmed wrong (single-answer questions).
    pub error_choices: Vec<AnswerChoice>,
    /// Choice combinations confirmed wrong as a whole (multiple-answer questions).
    pub multiple_error_choices: Vec<Vec<AnswerChoice>>,
    /// The choices submitted this attempt.
    pub chosen_choices: Vec<AnswerChoice>,
}

/// The mathematical content of a question's knowledge: every set of choices
/// is abstracted to the sequence of its choice values.
#[verifier::ext_equal]
pub struct QuestionModel {
    pub useful_id: Seq<char>,
    pub temp_id: Seq<char>,
    pub format: QuestionFormat,
    pub catalog: Seq<Seq<char>>,
    pub correct: Seq<Seq<char>>,
    pub wrong: Seq<Seq<char>>,
    pub wrong_combos: Seq<Seq<Seq<char>>>,
    pub chosen: Seq<Seq<char>>,
}

impl View for MemoryStoreQuestion {
    type V = QuestionModel;

    open spec fn view(&self) -> QuestionModel {
        QuestionModel {
            useful_id: self.useful_id@,
            temp_id: self.temp_id@,
            format: self.format,
            catalog: choice_vals(self.choices@),
            correct: choice_vals(self.correct_choices@),
            wrong: choice_vals(self.error_choices@),
            wrong_combos: combo_vals(self.multiple_error_choices@),
            chosen: choice_vals(self.chosen_choices@),
        }
    }
}

/// The choices of `cs` whose value is not among the values of `wrong`.
pub open spec fn unexcluded(cs: Seq<AnswerChoice>, wrong: Seq<Seq<char>>) -> Seq<AnswerChoice> {
    cs.filter(|c: AnswerChoice| !wrong.contains(c.choice_value@))
}

/// Filtering choices by value and then projecting to values is the same as
/// projecting first and filtering the values.
proof fn lemma_unexcluded_vals(cs: Seq<AnswerChoice>, wrong: Seq<Seq<char>>)
    ensures
        choice_vals(unexcluded(cs, wrong)) == remaining_vals(choice_vals(cs), wrong),
    decreases cs.len(),
{
    reveal(Seq::filter);
    if cs.len() == 0 {
        assert(choice_vals(unexcluded(cs, wrong)) =~= remaining_vals(choice_vals(cs), wrong));
    } else {
        let prefix = cs.drop_last();
        lemma_unexcluded_vals(prefix, wrong);
        assert(choice_vals(cs).drop_last() =~= choice_vals(prefix));
        let last = cs.last();
        assert(choice_vals(cs).last() == last.choice_value@);
        if !wrong.contains(last.choice_value@) {
            assert(unexcluded(cs, wrong) == unexcluded(prefix, wrong).push(last));
            assert(choice_vals(unexcluded(prefix, wrong).push(last)) =~= choice_vals(
                unexcluded(prefix, wrong),
            ).push(last.choice_value@));
            assert(choice_vals(unexcluded(cs, wrong)) =~= remaining_vals(
                choice_vals(cs),
                wrong,
            ));
        } else {
            assert(choice_vals(unexcluded(cs, wrong)) =~= remaining_vals(
                choice_vals(cs),
                wrong,
            ));
        }
    }
}

/// Whether the values of `cs` contain the value `v`.
fn contains_val(cs: &Vec<AnswerChoice>, v: &String) -> (r: bool)
    ensures
        r == choice_vals(cs@).contains(v@),
{
    let mut i: usize = 0;
    while i < cs.len()
        invariant
            i <= cs@.len(),
            forall|j: int| 0 <= j < i ==> choice_vals(cs@)[j] != v@,
        decreases cs@.len() - i,
    {
        if cs[i].choice_value == *v {
            assert(choice_vals(cs@)[i as int] == v@);
            return true;
        }
        i += 1;
    }
    false
}

impl Clone for MemoryStoreQuestion {
    fn clone(&self) -> (r: Self)
        ensures
            r@ == self@,
    {
        let r = MemoryStoreQuestion {
            useful_id: self.useful_id.clone(),
            temp_id: self.temp_id.clone(),
            format: self.format,
            choices: clone_choices(&self.choices),
            correct_choices: clone_choices(&self.correct_choices),
            error_choices: clone_choices(&self.error_choices),
            multiple_error_choices: clone_combos(&self.multiple_error_choices),
            chosen_choices: clone_choices(&self.chosen_choices),
        };
        proof {
            assert(r@ =~= self@);
        }
        r
    }
}

/// An element-wise copy of a choice list; the copy has the same view.
pub fn clone_choices(cs: &Vec<AnswerChoice>) -> (r: Vec<AnswerChoice>)
    ensures
        r@.len() == cs@.len(),
        forall|i: int| 0 <= i < cs@.len() ==> r@[i]@ == cs@[i]@,
        choice_vals(r@) == choice_vals(cs@),
{
    let mut r: Vec<AnswerChoice> = Vec::new();
    let mut i: usize = 0;
    while i < cs.len()
        invariant
            i <= cs@.len(),
            r@.len() == i,
            forall|j: int| 0 <= j < i ==> r@[j]@ == cs@[j]@,
        decreases cs@.len() - i,
    {
        r.push(cs[i].clone());
        i += 1;
    }
    proof {
        assert(choice_vals(r@) =~= choice_vals(cs@));
    }
    r
}

/// An element-wise copy of a combination list; the copy has the same values.
fn clone_combos(cs: &Vec<Vec<AnswerChoice>>) -> (r: Vec<Vec<AnswerChoice>>)
    ensures
        r@.len() == cs@.len(),
        forall|i: int| 0 <= i < cs@.len() ==> choice_vals(r@[i]@) == choice_vals(cs@[i]@),
        combo_vals(r@) == combo_vals(cs@),
{
    let mut r: Vec<Vec<AnswerChoice>> = Vec::new();
    let mut i: usize = 0;
    while i < cs.len()
        invariant
            i <= cs@.len(),
            r@.len() == i,
            forall|j: int| 0 <= j < i ==> choice_vals(r@[j]@) == choice_vals(cs@[j]@),
        decreases cs@.len() - i,
    {
        r.push(clone_choices(&cs[i]));
        i += 1;
    }
    proof {
        assert(combo_vals(r@) =~= combo_vals(cs@));
    }
    r
}

impl MemoryStoreQuestion {
    /// The catalog choices that are not yet confirmed wrong.
    pub fn excluded_errors(&self) -> (r: Vec<AnswerChoice>)
        ensures
            r@.len() == unexcluded(self.choices@, self@.wrong).len(),
            forall|i: int| 0 <= i < r@.len() ==> r@[i]@ == unexcluded(
                self.choices@,
                self@.wrong,
            )[i]@,
            choice_vals(r@) == remaining_vals(self@.catalog, self@.wrong),
    {
        let mut r: Vec<AnswerChoice> = Vec::new();
        let mut i: usize = 0;
        proof {
            reveal(Seq::filter);
            assert(self.choices@.subrange(0, 0) =~= Seq::<AnswerChoice>::empty());
        }
        while i < self.choices.len()
            invariant
                i <= self.choices@.len(),
                r@.len() == unexcluded(self.choices@.subrange(0, i as int), self@.wrong).len(),
                forall|j: int| 0 <= j < r@.len() ==> r@[j]@ == unexcluded(
                    self.choices@.subrange(0, i as int),
                    self@.wrong,
                )[j]@,
            decreases self.choices@.len() - i,
        {
            let keep = !contains_val(&self.error_choices, &self.choices[i].choice_value);
            proof {
                reveal(Seq::filter);
                let pre = self.choices@.subrange(0, i as int);
                let ext = self.choices@.subrange(0, i as int + 1);
                assert(ext.drop_last() =~= pre);
                assert(ext.last() == self.choices@[i as int]);
            }
            if keep {
                r.push(self.choices[i].clone());
            }
            i += 1;
        }
        proof {
            assert(self.choices@.subrange(0, self.choices@.len() as int) =~= self.choices@);
            lemma_unexcluded_vals(self.choices@, self@.wrong);
            assert(choice_vals(r@) =~= choice_vals(unexcluded(self.choices@, self@.wrong)));
        }
        r
    }
}

/// The models of a sequence of questions, in order.
pub open spec fn q_models(qs: Seq<MemoryStoreQuestion>) -> Seq<QuestionModel> {
    qs.map_values(|q: MemoryStoreQuestion| q@)
}

/// How many questions already carry a confirmed correct answer: a lower
/// bound on the number answered correctly this attempt.
pub open spec fn count_known(ms: Seq<QuestionModel>) -> int
    decreases ms.len(),
{
    if ms.len() == 0 {
        0
    } else {
        count_known(ms.drop_last()) + if ms.last().correct.len() > 0 {
            1int
        } else {
            0int
        }
    }
}

/// What one "all unknowns were wrong" reconciliation does to one question's
/// knowledge: nothing if the answer is already known; for a single-answer
/// question the submitted choices join the confirmed-wrong set and, if only
/// one candidate remains, it is promoted to the confirmed answer; for a
/// multiple-answer question the submitted combination joins the wrong
/// combinations.
pub open spec fn wrong_step(m: QuestionModel) -> QuestionModel {
    if m.correct.len() > 0 {
        m
    } else if m.format == QuestionFormat::MultiChoiceSingleAnswer {
        let wrong2 = m.wrong + m.chosen;
        let rem = remaining_vals(m.catalog, wrong2);
        if rem.len() == 1 {
            QuestionModel { correct: rem, wrong: wrong2, ..m }
        } else {
            QuestionModel { wrong: wrong2, ..m }
        }
    } else {
        QuestionModel { wrong_combos: m.wrong_combos.push(m.chosen), ..m }
    }
}

/// What a full-score reconciliation does to one question's knowledge: the
/// submitted choices become the confirmed correct answer.
pub open spec fn correct_step(m: QuestionModel) -> QuestionModel {
    QuestionModel { correct: m.chosen, ..m }
}

/// Relies on rand's `Rng::gen::<usize>` on the thread-local generator;
/// nothing can be promised of a random value.
#[verifier::external_body]
fn random_usize() -> usize {
    rand::thread_rng().gen::<usize>()
}

/// Relies on rand's `SliceRandom::choose`: `Some` of one element of the
/// slice, picked at random, or `None` exactly when the slice is empty.
#[verifier::external_body]
fn choose_one(v: &Vec<AnswerChoice>) -> (r: Option<AnswerChoice>)
    ensures
        (r is Some) <==> v@.len() > 0,
        (match r {
            Some(c) => exists|i: int| 0 <= i < v@.len() && c@ == v@[i]@,
            None => true,
        }),
{
    v.as_slice().choose(&mut rand::thread_rng()).cloned()
}

/// Relies on rand's `SliceRandom::choose_multiple`: `min(amount, len)`
/// distinct elements of the slice, chosen at random without repetition.
#[verifier::external_body]
fn sample_choices(v: &Vec<AnswerChoice>, amount: usize) -> (r: Vec<AnswerChoice>)
    ensures
        r@.len() == (if amount <= v@.len() {
            amount as int
        } else {
            v@.len() as int
        }),
        forall|j: int| 0 <= j < r@.len() ==> exists|i: int|
            0 <= i < v@.len() && #[trigger] r@[j]@ == #[trigger] v@[i]@,
        choice_vals(r@).to_multiset().subset_of(choice_vals(v@).to_multiset()),
{
    v.as_slice().choose_multiple(&mut rand::thread_rng(), amount).cloned().collect()
}

/// A random integer between 1 and `max`, both included.
pub fn get_random(max: usize) -> (r: usize)
    requires
        max > 0,
    ensures
        1 <= r <= max,
{
    let index = random_usize();
    let mut result = index % max;
    if result == 0 {
        result = max;
    }
    result
}

/// How many distinct non-empty combinations can be formed from `v` options:
/// the sum over every size from 1 to `v` of the combinations of that size.
pub fn get_combination_count(v: usize) -> (r: usize)
    requires
        pow2(v as nat) - 1 <= usize::MAX,
    ensures
        r == pow2(v as nat) - 1,
{
    let mut result: usize = 0;
    let mut k: usize = 0;
    proof {
        vstd::arithmetic::power2::lemma_pow2_pos(v as nat);
        vstd::arithmetic::power2::lemma2_to64();
    }
    while k < v
        invariant
            k <= v,
            pow2(v as nat) - 1 <= usize::MAX,
            result == pow2(k as nat) - 1,
        decreases v - k,
    {
        proof {
            vstd::arithmetic::power2::lemma_pow2_unfold((k + 1) as nat);
            if ((k + 1) as nat) < (v as nat) {
                vstd::arithmetic::power2::lemma_pow2_strictly_increases(
                    (k + 1) as nat,
                    v as nat,
                );
            }
            vstd::arithmetic::power2::lemma_pow2_pos(k as nat);
        }
        result = result * 2 + 1;
        k += 1;
    }
    result
}

impl MemoryStoreQuestion {
    /// One uniformly random candidate: a catalog choice not yet confirmed
    /// wrong. Fails exactly when no candidate is left.
    pub fn random_choice(&self) -> (r: Result<AnswerChoice, QuizError>)
        ensures
            (match r {
                Ok(c) => remaining_vals(self@.catalog, self@.wrong).contains(c.choice_value@)
                    && remaining_vals(self@.catalog, self@.wrong).len() > 0,
                Err(e) => e == QuizError::ExhaustedCandidates && remaining_vals(
                    self@.catalog,
                    self@.wrong,
                ).len() == 0,
            }),
    {
        let cands = self.excluded_errors();
        match choose_one(&cands) {
            Some(c) => {
                proof {
                    let i = choose|i: int| 0 <= i < cands@.len() && c@ == cands@[i]@;
                    assert(choice_vals(cands@)[i] == c.choice_value@);
                }
                Ok(c)
            },
            None => Err(QuizError::ExhaustedCandidates),
        }
    }

    /// Whether any stored wrong combination matches the picked combination.
    fn hits_any_combo(&self, picked: &Vec<AnswerChoice>) -> (r: bool)
        ensures
            r == hits_wrong_combo(self@.wrong_combos, choice_vals(picked@)),
    {
        let mut i: usize = 0;
        while i < self.multiple_error_choices.len()
            invariant
                i <= self.multiple_error_choices@.len(),
                forall|j: int| 0 <= j < i ==> !combo_matches(
                    self@.wrong_combos[j],
                    choice_vals(picked@),
                ),
            decreases self.multiple_error_choices@.len() - i,
        {
            if compare_multiple_choices(&self.multiple_error_choices[i], picked) {
                assert(combo_matches(self@.wrong_combos[i as int], choice_vals(picked@)));
                return true;
            }
            i += 1;
        }
        false
    }

    /// A random non-empty combination of catalog choices of random size,
    /// redrawn until it matches no stored wrong combination. With nothing
    /// confirmed wrong, the first draw is acceptable and success is owed;
    /// otherwise it fails with `ExhaustedCandidates` when the redraw budget
    /// runs out.
    pub fn random_choices(&self) -> (r: Result<Vec<AnswerChoice>, QuizError>)
        requires
            self.choices@.len() > 0,
        ensures
            self@.wrong_combos.len() == 0 ==> r is Ok,
            (match r {
                Ok(picked) => 1 <= picked@.len() <= self.choices@.len() && (forall|j: int|
                    0 <= j < picked@.len() ==> #[trigger] self@.catalog.contains(
                        picked@[j].choice_value@,
                    )) && choice_vals(picked@).to_multiset().subset_of(
                    self@.catalog.to_multiset(),
                ) && !hits_wrong_combo(self@.wrong_combos, choice_vals(picked@)),
                Err(e) => e == QuizError::ExhaustedCandidates,
            }),
    {
        let len = self.choices.len();
        let mut tries: usize = 0;
        while tries < MAX_REDRAWS
            invariant
                self.choices@.len() > 0,
                len == self.choices@.len(),
                self@.wrong_combos.len() == 0 ==> tries == 0,
            decreases MAX_REDRAWS - tries,
        {
            let k = get_random(len);
            let picked = sample_choices(&self.choices, k);
            if !self.hits_any_combo(&picked) {
                proof {
                    assert forall|j: int| 0 <= j < picked@.len() implies #[trigger] self@
                        .catalog.contains(picked@[j].choice_value@) by {
                        let i = choose|i: int|
                            0 <= i < self.choices@.len() && picked@[j]@ == self.choices@[i]@;
                        assert(self@.catalog[i] == picked@[j].choice_value@);
                    }
                }
                return Ok(picked);
            }
            tries += 1;
        }
        Err(QuizError::ExhaustedCandidates)
    }
}

/// Whether two choice combinations select the same choices: they must have
/// the same size, and every value of `a` must occur among the values of `b`.
pub fn compare_multiple_choices(a: &Vec<AnswerChoice>, b: &Vec<AnswerChoice>) -> (r: bool)
    ensures
        r == combo_matches(choice_vals(a@), choice_vals(b@)),
{
    if a.len() != b.len() {
        return false;
    }
    let mut i: usize = 0;
    while i < a.len()
        invariant
            i <= a@.len(),
            a@.len() == b@.len(),
            forall|j: int| 0 <= j < i ==> choice_vals(b@).contains(choice_vals(a@)[j]),
        decreases a@.len() - i,
    {
        if !contains_val(b, &a[i].choice_value) {
            assert(!choice_vals(b@).contains(choice_vals(a@)[i as int]));
            return false;
        }
        i += 1;
    }
    true
}

/// Whether some question carries the transient identifier `tid`.
pub open spec fn has_tid(qs: Seq<MemoryStoreQuestion>, tid: Seq<char>) -> bool {
    exists|i: int| 0 <= i < qs.len() && qs[i].temp_id@ == tid
}

/// Whether `i` is the position of the first question carrying `tid`.
pub open spec fn is_first_tid(qs: Seq<MemoryStoreQuestion>, tid: Seq<char>, i: int) -> bool {
    &&& 0 <= i < qs.len()
    &&& qs[i].temp_id@ == tid
    &&& forall|j: int| 0 <= j < i ==> qs[j].temp_id@ != tid
}

/// The position of the first question carrying `temp_id`, if any.
fn find_tid(qs: &Vec<MemoryStoreQuestion>, temp_id: &String) -> (r: Option<usize>)
    ensures
        (match r {
            Some(i) => is_first_tid(qs@, temp_id@, i as int),
            None => !has_tid(qs@, temp_id@),
        }),
        (r is Some) <==> has_tid(qs@, temp_id@),
{
    let mut i: usize = 0;
    while i < qs.len()
        invariant
            i <= qs@.len(),
            forall|j: int| 0 <= j < i ==> qs@[j].temp_id@ != temp_id@,
        decreases qs@.len() - i,
    {
        if qs[i].temp_id == *temp_id {
            return Some(i);
        }
        i += 1;
    }
    None
}

/// The in-memory state of the agent: its configuration and the questions of
/// the attempt in flight.
pub struct GlobalData {
    pub quiz_id: String,
    pub cookie: String,
    pub csrf_token: String,
    pub cookies: StrDict,
    pub student_assessment_sys_guid: String,
    pub questions: Vec<MemoryStoreQuestion>,
}

/// Whether two states agree on everything but the question list.
pub open spec fn same_config(a: GlobalData, b: GlobalData) -> bool {
    &&& a.quiz_id == b.quiz_id
    &&& a.cookie == b.cookie
    &&& a.csrf_token == b.csrf_token
    &&& a.cookies == b.cookies
    &&& a.student_assessment_sys_guid == b.student_assessment_sys_guid
}

/// How the selector relates a question's knowledge `m` to the state `m2`
/// it leaves behind, together with the selector's outcome: a known answer is
/// returned verbatim; otherwise a single-answer question gets one random
/// candidate outside the confirmed-wrong set (success exactly when a
/// candidate remains), and a multiple-answer question gets a random
/// combination matching no confirmed-wrong combination (success owed at
/// least while no combination is confirmed wrong).
pub open spec fn selected_rel(m: QuestionModel, m2: QuestionModel, r: Result<(), QuizError>) -> bool {
    &&& m2 == (QuestionModel { chosen: m2.chosen, ..m })
    &&& if m.correct.len() > 0 {
        r is Ok && m2.chosen == m.correct
    } else if m.format == QuestionFormat::MultiChoiceSingleAnswer {
        &&& (r is Ok <==> remaining_vals(m.catalog, m.wrong).len() > 0)
        &&& (r is Ok ==> m2.chosen.len() == 1 && remaining_vals(m.catalog, m.wrong).contains(
            m2.chosen[0],
        ))
        &&& (r is Err ==> r == Err::<(), QuizError>(QuizError::ExhaustedCandidates) && m2 == m)
    } else {
        &&& (m.catalog.len() > 0 && m.wrong_combos.len() == 0 ==> r is Ok)
        &&& (r is Ok ==> 1 <= m2.chosen.len() <= m.catalog.len() && (forall|j: int|
            0 <= j < m2.chosen.len() ==> #[trigger] m.catalog.contains(m2.chosen[j]))
            && m2.chosen.to_multiset().subset_of(m.catalog.to_multiset())
            && !hits_wrong_combo(m.wrong_combos, m2.chosen))
        &&& (r is Err ==> r == Err::<(), QuizError>(QuizError::ExhaustedCandidates) && m2 == m)
    }
}

impl GlobalData {
    /// A fresh state from the process configuration: the cookie header is
    /// parsed into the cookie dictionary, and no attempt is in flight.
    pub fn new(quiz_id: String, cookie: String, csrf_token: String) -> (r: GlobalData)
        ensures
            r.quiz_id == quiz_id,
            r.cookie == cookie,
            r.csrf_token == csrf_token,
            r.cookies.wf(),
            r.cookies.contents() == crate::cookie_pairs_into(
                Map::<Seq<char>, Seq<char>>::empty(),
                cookie@,
            ),
            r.student_assessment_sys_guid@ == Seq::<char>::empty(),
            r.questions@ == Seq::<MemoryStoreQuestion>::empty(),
    {
        let parsed = crate::cookies(&cookie);
        GlobalData {
            quiz_id,
            cookie,
            csrf_token,
            cookies: parsed,
            student_assessment_sys_guid: String::new(),
            questions: Vec::new(),
        }
    }

    pub fn quiz_id(&self) -> (r: &String)
        ensures
            r@ == self.quiz_id@,
    {
        &self.quiz_id
    }

    pub fn cookie(&self) -> (r: &String)
        ensures
            r@ == self.cookie@,
    {
        &self.cookie
    }

    pub fn csrf_token(&self) -> (r: &String)
        ensures
            r@ == self.csrf_token@,
    {
        &self.csrf_token
    }

    /// The value stored under `key` among the parsed cookies, if any.
    pub fn cookie_value<'a>(&'a self, key: &str) -> (r: Option<&'a String>)
        requires
            self.cookies.wf(),
        ensures
            (r is Some) <==> self.cookies.contents().contains_key(key@),
            (match r {
                Some(v) => v@ == self.cookies.contents()[key@],
                None => true,
            }),
    {
        let owned = key.to_owned();
        self.cookies.get(&owned)
    }

    pub fn student_guid(&self) -> (r: &String)
        ensures
            r@ == self.student_assessment_sys_guid@,
    {
        &self.student_assessment_sys_guid
    }

    pub fn set_student_guid(&mut self, value: String)
        ensures
            final(self).student_assessment_sys_guid == value,
            final(self).quiz_id == old(self).quiz_id,
            final(self).cookie == old(self).cookie,
            final(self).csrf_token == old(self).csrf_token,
            final(self).cookies == old(self).cookies,
            final(self).questions == old(self).questions,
    {
        self.student_assessment_sys_guid = value;
    }

    /// Appends a fresh, empty question record carrying `temp_id`.
    pub fn insert_question(&mut self, temp_id: String)
        ensures
            same_config(*old(self), *final(self)),
            final(self).questions@.len() == old(self).questions@.len() + 1,
            final(self).questions@.subrange(0, old(self).questions@.len() as int) == old(self).questions@,
            (final(self).questions@.last()@ == QuestionModel {
                useful_id: Seq::<char>::empty(),
                temp_id: temp_id@,
                format: QuestionFormat::MultiChoiceSingleAnswer,
                catalog: Seq::<Seq<char>>::empty(),
                correct: Seq::<Seq<char>>::empty(),
                wrong: Seq::<Seq<char>>::empty(),
                wrong_combos: Seq::<Seq<Seq<char>>>::empty(),
                chosen: Seq::<Seq<char>>::empty(),
            }),
    {
        self.questions.push(
            MemoryStoreQuestion {
                useful_id: String::new(),
                temp_id,
                format: QuestionFormat::MultiChoiceSingleAnswer,
                choices: Vec::new(),
                correct_choices: Vec::new(),
                error_choices: Vec::new(),
                multiple_error_choices: Vec::new(),
                chosen_choices: Vec::new(),
            },
        );
        proof {
            assert(final(self).questions@.subrange(0, old(self).questions@.len() as int)
                =~= old(self).questions@);
            assert(choice_vals(Seq::<AnswerChoice>::empty()) =~= Seq::<Seq<char>>::empty());
            assert(combo_vals(Seq::<Vec<AnswerChoice>>::empty()) =~= Seq::<
                Seq<Seq<char>>,
            >::empty());
        }
    }

    /// Records the platform identifier of the question carrying `temp_id`.
    pub fn set_useful_id(&mut self, temp_id: String, useful_id: String) -> (r: Result<
        (),
        QuizError,
    >)
        ensures
            same_config(*old(self), *final(self)),
            (r is Ok) <==> has_tid(old(self).questions@, temp_id@),
            (match r {
                Ok(()) => exists|i: int|
                    #[trigger] is_first_tid(old(self).questions@, temp_id@, i) && final(self).questions@ == old(self).questions@.update(
                        i,
                        (MemoryStoreQuestion {
                            useful_id: useful_id,
                            ..old(self).questions@[i]
                        }),
                    ),
                Err(e) => e == QuizError::QuestionNotFound && *final(self) == *old(self),
            }),
    {
        match find_tid(&self.questions, &temp_id) {
            Some(i) => {
                self.questions[i].useful_id = useful_id;
                Ok(())
            },
            None => Err(QuizError::QuestionNotFound),
        }
    }

    /// Records the format of the question carrying `temp_id`.
    pub fn set_format(&mut self, temp_id: String, format: QuestionFormat) -> (r: Result<
        (),
        QuizError,
    >)
        ensures
            same_config(*old(self), *final(self)),
            (r is Ok) <==> has_tid(old(self).questions@, temp_id@),
            (match r {
                Ok(()) => exists|i: int|
                    #[trigger] is_first_tid(old(self).questions@, temp_id@, i) && final(self).questions@ == old(self).questions@.update(
                        i,
                        (MemoryStoreQuestion { format: format, ..old(self).questions@[i] }),
                    ),
                Err(e) => e == QuizError::QuestionNotFound && *final(self) == *old(self),
            }),
    {
        match find_tid(&self.questions, &temp_id) {
            Some(i) => {
                self.questions[i].format = format;
                Ok(())
            },
            None => Err(QuizError::QuestionNotFound),
        }
    }

    /// How many questions already carry a confirmed correct answer: the
    /// least number that must be answered correctly this attempt.
    pub fn get_min_correct(&self) -> (r: usize)
        ensures
            r == count_known(q_models(self.questions@)),
    {
        let mut result: usize = 0;
        let mut i: usize = 0;
        proof {
            assert(q_models(self.questions@.subrange(0, 0)) =~= Seq::<QuestionModel>::empty());
        }
        while i < self.questions.len()
            invariant
                i <= self.questions@.len(),
                result <= i,
                result == count_known(q_models(self.questions@.subrange(0, i as int))),
            decreases self.questions@.len() - i,
        {
            proof {
                let pre = q_models(self.questions@.subrange(0, i as int));
                let ext = q_models(self.questions@.subrange(0, i as int + 1));
                assert(ext.drop_last() =~= pre);
                assert(ext.last() == self.questions@[i as int]@);
            }
            if self.questions[i].correct_choices.len() > 0 {
                result += 1;
            }
            i += 1;
        }
        proof {
            assert(self.questions@.subrange(0, self.questions@.len() as int)
                =~= self.questions@);
        }
        result
    }

    /// Installs the catalog of the question carrying `temp_id`, marking
    /// every offered choice as selectable for submission.
    pub fn set_choices(&mut self, temp_id: String, choices: Vec<AnswerChoice>) -> (r: Result<
        (),
        QuizError,
    >)
        ensures
            same_config(*old(self), *final(self)),
            final(self).questions@.len() == old(self).questions@.len(),
            (r is Ok) <==> has_tid(old(self).questions@, temp_id@),
            (match r {
                Ok(()) => exists|i: int|
                    #[trigger] is_first_tid(old(self).questions@, temp_id@, i) && (forall|j: int|
                        0 <= j < old(self).questions@.len() && j != i ==> final(self).questions@[j] == old(self).questions@[j]) && (final(self).questions@[i]@ == QuestionModel {
                        catalog: choice_vals(choices@),
                        ..old(self).questions@[i]@
                    }) && final(self).questions@[i].choices@.len() == choices@.len() && (forall|
                        k: int,
                    |
                        0 <= k < choices@.len() ==> final(self).questions@[i].choices@[k]@
                            == (ChoiceView { is_selected: true, ..choices@[k]@ })),
                Err(e) => e == QuizError::QuestionNotFound && *final(self) == *old(self),
            }),
    {
        match find_tid(&self.questions, &temp_id) {
            Some(i) => {
                let ghost m0 = self.questions@[i as int]@;
                let marked = mark_selected(choices);
                self.questions[i].choices = marked;
                proof {
                    assert(choice_vals(final(self).questions@[i as int].choices@)
                        =~= choice_vals(choices@));
                    assert(final(self).questions@[i as int]@ =~= (QuestionModel {
                        catalog: choice_vals(choices@),
                        ..m0
                    }));
                }
                Ok(())
            },
            None => Err(QuizError::QuestionNotFound),
        }
    }

    /// Chooses what to submit for the question carrying `temp_id`: the
    /// confirmed answer verbatim when one is known, otherwise a random pick
    /// respecting the exclusion sets.
    pub fn select_choices(&mut self, temp_id: String) -> (r: Result<(), QuizError>)
        ensures
            same_config(*old(self), *final(self)),
            final(self).questions@.len() == old(self).questions@.len(),
            !has_tid(old(self).questions@, temp_id@) ==> r == Err::<(), QuizError>(
                QuizError::QuestionNotFound,
            ) && *final(self) == *old(self),
            has_tid(old(self).questions@, temp_id@) ==> exists|i: int|
                #[trigger] is_first_tid(old(self).questions@, temp_id@, i) && (forall|j: int|
                    0 <= j < old(self).questions@.len() && j != i ==> final(self).questions@[j]
                        == old(self).questions@[j]) && selected_rel(
                    old(self).questions@[i]@,
                    final(self).questions@[i]@,
                    r,
                ),
    {
        let i = match find_tid(&self.questions, &temp_id) {
            Some(i) => i,
            None => {
                return Err(QuizError::QuestionNotFound);
            },
        };
        let ghost m = self.questions@[i as int]@;
        if self.questions[i].correct_choices.len() > 0 {
            let new_chosen = clone_choices(&self.questions[i].correct_choices);
            self.questions[i].chosen_choices = new_chosen;
            proof {
                assert(final(self).questions@[i as int]@ =~= (QuestionModel {
                    chosen: m.correct,
                    ..m
                }));
            }
            Ok(())
        } else {
            let fmt = self.questions[i].format;
            match fmt {
                QuestionFormat::MultiChoiceSingleAnswer => {
                    match self.questions[i].random_choice() {
                        Ok(c) => {
                            let mut one: Vec<AnswerChoice> = Vec::new();
                            one.push(c);
                            self.questions[i].chosen_choices = one;
                            proof {
                                let m2 = final(self).questions@[i as int]@;
                                assert(m2.chosen =~= seq![m2.chosen[0]]);
                                assert(m2 =~= (QuestionModel { chosen: m2.chosen, ..m }));
                            }
                            Ok(())
                        },
                        Err(e) => {
                            proof {
                                assert(final(self).questions@[i as int]@ =~= m);
                            }
                            Err(e)
                        },
                    }
                },
                QuestionFormat::MultiChoiceMultipleAnswer => {
                    if self.questions[i].choices.len() == 0 {
                        proof {
                            assert(final(self).questions@[i as int]@ =~= m);
                        }
                        return Err(QuizError::ExhaustedCandidates);
                    }
                    match self.questions[i].random_choices() {
                        Ok(picked) => {
                            self.questions[i].chosen_choices = picked;
                            proof {
                                let m2 = final(self).questions@[i as int]@;
                                assert(m2 =~= (QuestionModel { chosen: m2.chosen, ..m }));
                            }
                            Ok(())
                        },
                        Err(e) => {
                            proof {
                                assert(final(self).questions@[i as int]@ =~= m);
                            }
                            Err(e)
                        },
                    }
                },
            }
        }
    }

    /// A copy of what was chosen for the question carrying `temp_id`.
    pub fn chosen_choices(&self, temp_id: String) -> (r: Result<Vec<AnswerChoice>, QuizError>)
        ensures
            (r is Ok) <==> has_tid(self.questions@, temp_id@),
            (match r {
                Ok(v) => exists|i: int|
                    #[trigger] is_first_tid(self.questions@, temp_id@, i) && choice_vals(v@)
                        == self.questions@[i]@.chosen && v@.len()
                        == self.questions@[i].chosen_choices@.len() && (forall|k: int|
                        0 <= k < v@.len() ==> v@[k]@ == self.questions@[i].chosen_choices@[k]@),
                Err(e) => e == QuizError::QuestionNotFound,
            }),
    {
        match find_tid(&self.questions, &temp_id) {
            Some(i) => Ok(clone_choices(&self.questions[i].chosen_choices)),
            None => Err(QuizError::QuestionNotFound),
        }
    }

    pub fn question_count(&self) -> (r: usize)
        ensures
            r == self.questions@.len(),
    {
        self.questions.len()
    }

    /// Discards every question of the attempt in flight.
    pub fn clear_question(&mut self)
        ensures
            same_config(*old(self), *final(self)),
            final(self).questions@ == Seq::<MemoryStoreQuestion>::empty(),
    {
        self.questions.clear();
    }

    pub fn first_question(&self) -> (r: String)
        requires
            self.questions@.len() > 0,
        ensures
            r@ == self.questions@[0].temp_id@,
    {
        self.questions[0].temp_id.clone()
    }

    pub fn get_question_id(&self, index: usize) -> (r: String)
        requires
            index < self.questions@.len(),
        ensures
            r@ == self.questions@[index as int].temp_id@,
    {
        self.get_question(index).temp_id.clone()
    }

    pub fn get_question(&self, index: usize) -> (r: &MemoryStoreQuestion)
        requires
            index < self.questions@.len(),
        ensures
            *r == self.questions@[index as int],
    {
        &self.questions[index]
    }

    pub fn last_question(&self) -> (r: String)
        requires
            self.questions@.len() > 0,
        ensures
            r@ == self.questions@.last().temp_id@,
    {
        self.questions[self.questions.len() - 1].temp_id.clone()
    }

    /// The wrong-branch reconciliation: every question without a confirmed
    /// answer has its submitted choices recorded as wrong, promoting the one
    /// remaining candidate when elimination closes.
    pub fn remember_error(&mut self)
        ensures
            same_config(*old(self), *final(self)),
            final(self).questions@.len() == old(self).questions@.len(),
            forall|i: int| 0 <= i < old(self).questions@.len() ==> #[trigger] final(self).questions@[i]@ == wrong_step(old(self).questions@[i]@),
    {
        let mut updated: Vec<MemoryStoreQuestion> = Vec::new();
        let mut i: usize = 0;
        while i < self.questions.len()
            invariant
                i <= self.questions@.len(),
                *self == *old(self),
                updated@.len() == i,
                forall|j: int| 0 <= j < i ==> #[trigger] updated@[j]@ == wrong_step(
                    self.questions@[j]@,
                ),
            decreases self.questions@.len() - i,
        {
            updated.push(reconcile_wrong_one(&self.questions[i]));
            i += 1;
        }
        self.questions = updated;
    }

    /// The full-score reconciliation: every question's submitted choices
    /// become its confirmed correct answer.
    pub fn remember_correct(&mut self)
        ensures
            same_config(*old(self), *final(self)),
            final(self).questions@.len() == old(self).questions@.len(),
            forall|i: int| 0 <= i < old(self).questions@.len() ==> #[trigger] final(self).questions@[i]@ == correct_step(old(self).questions@[i]@),
    {
        let mut updated: Vec<MemoryStoreQuestion> = Vec::new();
        let mut i: usize = 0;
        while i < self.questions.len()
            invariant
                i <= self.questions@.len(),
                *self == *old(self),
                updated@.len() == i,
                forall|j: int| 0 <= j < i ==> #[trigger] updated@[j]@ == correct_step(
                    self.questions@[j]@,
                ),
            decreases self.questions@.len() - i,
        {
            updated.push(reconcile_correct_one(&self.questions[i]));
            i += 1;
        }
        self.questions = updated;
    }

    /// Interprets the attempt's outcome signal: a full score confirms every
    /// submitted choice; a correct-count equal to the number of already
    /// known questions proves every other question wrong; anything in
    /// between is ambiguous and leaves the knowledge untouched.
    pub fn reconcile(&mut self, score: usize, questions_correct: usize)
        ensures
            same_config(*old(self), *final(self)),
            final(self).questions@.len() == old(self).questions@.len(),
            score == 100 ==> (forall|i: int|
                0 <= i < old(self).questions@.len() ==> #[trigger] final(self).questions@[i]@
                    == correct_step(old(self).questions@[i]@)),
            score != 100 && questions_correct == count_known(q_models(old(self).questions@))
                ==> (forall|i: int|
                0 <= i < old(self).questions@.len() ==> #[trigger] final(self).questions@[i]@
                    == wrong_step(old(self).questions@[i]@)),
            score != 100 && questions_correct != count_known(q_models(old(self).questions@))
                ==> *final(self) == *old(self),
    {
        if score == 100 {
            self.remember_correct();
        } else {
            let min = self.get_min_correct();
            if questions_correct == min {
                self.remember_error();
            }
        }
    }

    /// Merges a stored knowledge record into the question carrying
    /// `temp_id`: the confirmed answer and the exclusion sets are taken from
    /// the record; everything else is kept.
    pub fn absorb_knowledge(&mut self, temp_id: String, stored: Option<&MemoryStoreQuestion>) -> (r:
        Result<(), QuizError>)
        ensures
            same_config(*old(self), *final(self)),
            final(self).questions@.len() == old(self).questions@.len(),
            (r is Ok) <==> has_tid(old(self).questions@, temp_id@),
            (match r {
                Ok(()) => exists|i: int|
                    #[trigger] is_first_tid(old(self).questions@, temp_id@, i) && (forall|j: int|
                        0 <= j < old(self).questions@.len() && j != i ==> final(self).questions@[j] == old(self).questions@[j]) && (match stored {
                        Some(record) => final(self).questions@[i]@ == (QuestionModel {
                            correct: record@.correct,
                            wrong: record@.wrong,
                            wrong_combos: record@.wrong_combos,
                            ..old(self).questions@[i]@
                        }),
                        None => final(self).questions@[i] == old(self).questions@[i],
                    }),
                Err(e) => e == QuizError::QuestionNotFound && *final(self) == *old(self),
            }),
    {
        let i = match find_tid(&self.questions, &temp_id) {
            Some(i) => i,
            None => {
                return Err(QuizError::QuestionNotFound);
            },
        };
        match stored {
            Some(record) => {
                let ghost m0 = self.questions@[i as int]@;
                let correct = clone_choices(&record.correct_choices);
                let errors = clone_choices(&record.error_choices);
                let combos = clone_combos(&record.multiple_error_choices);
                self.questions[i].correct_choices = correct;
                self.questions[i].error_choices = errors;
                self.questions[i].multiple_error_choices = combos;
                proof {
                    assert(final(self).questions@[i as int]@ =~= (QuestionModel {
                        correct: record@.correct,
                        wrong: record@.wrong,
                        wrong_combos: record@.wrong_combos,
                        ..m0
                    }));
                }
                Ok(())
            },
            None => Ok(()),
        }
    }
}

/// A copy of `cs` with every choice marked as selected.
fn mark_selected(cs: Vec<AnswerChoice>) -> (r: Vec<AnswerChoice>)
    ensures
        r@.len() == cs@.len(),
        forall|k: int| 0 <= k < cs@.len() ==> r@[k]@ == (ChoiceView {
            is_selected: true,
            ..cs@[k]@
        }),
{
    let mut r: Vec<AnswerChoice> = Vec::new();
    let mut i: usize = 0;
    while i < cs.len()
        invariant
            i <= cs@.len(),
            r@.len() == i,
            forall|k: int| 0 <= k < i ==> r@[k]@ == (ChoiceView {
                is_selected: true,
                ..cs@[k]@
            }),
        decreases cs@.len() - i,
    {
        let c = cs[i].clone();
        r.push(
            AnswerChoice {
                answer_sys_guid: c.answer_sys_guid,
                choice_value: c.choice_value,
                is_selected: true,
            },
        );
        i += 1;
    }
    r
}

/// One question's share of the wrong-branch reconciliation.
fn reconcile_wrong_one(q: &MemoryStoreQuestion) -> (r: MemoryStoreQuestion)
    ensures
        r@ == wrong_step(q@),
{
    if q.correct_choices.len() > 0 {
        return q.clone();
    }
    match q.format {
        QuestionFormat::MultiChoiceSingleAnswer => {
            let mut q2 = q.clone();
            let mut k: usize = 0;
            proof {
                assert(q2@.wrong + q@.chosen.subrange(0, 0) =~= q2@.wrong);
                assert(q2@ =~= (QuestionModel {
                    wrong: q@.wrong + q@.chosen.subrange(0, 0),
                    ..q@
                }));
            }
            while k < q.chosen_choices.len()
                invariant
                    k <= q.chosen_choices@.len(),
                    q2@ == (QuestionModel { wrong: q@.wrong + q@.chosen.subrange(0, k as int), ..q@ }),
                decreases q.chosen_choices@.len() - k,
            {
                let ghost before = q2@;
                q2.error_choices.push(q.chosen_choices[k].clone());
                proof {
                    assert(choice_vals(q2.error_choices@) =~= before.wrong.push(
                        q@.chosen[k as int],
                    ));
                    assert(q@.wrong + q@.chosen.subrange(0, k as int + 1) =~= before.wrong.push(
                        q@.chosen[k as int],
                    ));
                    assert(q2@ =~= (QuestionModel {
                        wrong: q@.wrong + q@.chosen.subrange(0, k as int + 1),
                        ..q@
                    }));
                }
                k += 1;
            }
            proof {
                assert(q@.chosen.subrange(0, q@.chosen.len() as int) =~= q@.chosen);
                assert(q2@ =~= (QuestionModel { wrong: q@.wrong + q@.chosen, ..q@ }));
            }
            let rem = q2.excluded_errors();
            if rem.len() == 1 {
                let ghost before = q2@;
                q2.correct_choices = rem;
                proof {
                    assert(q2@ =~= (QuestionModel {
                        correct: remaining_vals(q@.catalog, q@.wrong + q@.chosen),
                        ..before
                    }));
                }
            }
            q2
        },
        QuestionFormat::MultiChoiceMultipleAnswer => {
            let mut q2 = q.clone();
            let ghost before = q2@;
            q2.multiple_error_choices.push(clone_choices(&q.chosen_choices));
            proof {
                assert(combo_vals(q2.multiple_error_choices@) =~= before.wrong_combos.push(
                    q@.chosen,
                ));
                assert(q2@ =~= (QuestionModel {
                    wrong_combos: q@.wrong_combos.push(q@.chosen),
                    ..q@
                }));
            }
            q2
        },
    }
}

/// One question's share of the full-score reconciliation.
fn reconcile_correct_one(q: &MemoryStoreQuestion) -> (r: MemoryStoreQuestion)
    ensures
        r@ == correct_step(q@),
{
    let mut q2 = q.clone();
    q2.correct_choices = clone_choices(&q.chosen_choices);
    proof {
        assert(q2@ =~= correct_step(q@));
    }
    q2
}

} // verus!
