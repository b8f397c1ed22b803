//! The store of questions, answers and accounts, its model, and the laws
//! that hold of its operations.

use vstd::prelude::*;

use crate::api::ApiError;
use crate::question::{is_normal, lemma_normalized_is_normal, normal_tags, normalize_tags, normalized, Question, QuestionId, QuestionView};

verus! {

/// Mathematical model of an answer.
pub struct AnswerView {
    pub content: Seq<char>,
    pub question_id: int,
}

/// Mathematical model of an account.
pub struct AccountView {
    pub id: int,
    pub email: Seq<char>,
    pub password: Seq<char>,
}

/// An answer to the question with identifier `question_id`.
#[derive(Debug, PartialEq, Eq)]
pub struct Answer {
    pub content: String,
    pub question_id: QuestionId,
}

impl View for Answer {
    type V = AnswerView;

    open spec fn view(&self) -> AnswerView {
        AnswerView { content: self.content@, question_id: self.question_id.0 as int }
    }
}

/// Identifier of an account. Valid identifiers are non-negative.
#[derive(Debug, Clone, Copy, PartialEq, Eq, Structural, Hash)]
pub struct AccountId(pub i32);

/// An account. The password is kept as the caller gave it.
#[derive(Debug, PartialEq, Eq)]
pub struct Account {
    pub id: AccountId,
    pub email: String,
    pub password: String,
}

impl View for Account {
    type V = AccountView;

    open spec fn view(&self) -> AccountView {
        AccountView { id: self.id.0 as int, email: self.email@, password: self.password@ }
    }
}

impl Clone for Answer {
    fn clone(&self) -> (r: Self)
        ensures
            r@ == self@,
    {
        Answer { content: self.content.clone(), question_id: self.question_id }
    }
}

impl Clone for Account {
    fn clone(&self) -> (r: Self)
        ensures
            r@ == self@,
    {
        Account { id: self.id, email: self.email.clone(), password: self.password.clone() }
    }
}

/// Mathematical model of the store: each collection in the order of insertion.
pub struct StoreView {
    pub questions: Seq<QuestionView>,
    pub answers: Seq<AnswerView>,
    pub accounts: Seq<AccountView>,
}

pub open spec fn questions_view(v: Seq<Question>) -> Seq<QuestionView> {
    v.map_values(|q: Question| q@)
}

pub open spec fn answers_view(v: Seq<Answer>) -> Seq<AnswerView> {
    v.map_values(|a: Answer| a@)
}

pub open spec fn accounts_view(v: Seq<Account>) -> Seq<AccountView> {
    v.map_values(|a: Account| a@)
}

/// Some question in `s` has identifier `id`.
pub open spec fn has_id(s: Seq<QuestionView>, id: int) -> bool {
    exists|i: int| 0 <= i < s.len() && (#[trigger] s[i]).id == id
}

/// The question in `s` with identifier `id`, if there is one.
pub open spec fn lookup(s: Seq<QuestionView>, id: int) -> Option<QuestionView> {
    if has_id(s, id) {
        Some(s[choose|i: int| 0 <= i < s.len() && (#[trigger] s[i]).id == id])
    } else {
        None
    }
}

/// No two questions share an identifier.
pub open spec fn unique_ids(s: Seq<QuestionView>) -> bool {
    forall|i: int, j: int|
        0 <= i < s.len() && 0 <= j < s.len() && i != j ==> (#[trigger] s[i]).id != (#[trigger] s[j]).id
}

/// The questions as a store keeps them: unique identifiers, each in normal form.
pub open spec fn questions_wf(s: Seq<QuestionView>) -> bool {
    &&& unique_ids(s)
    &&& forall|i: int| 0 <= i < s.len() ==> is_normal(#[trigger] s[i])
}

/// The questions of `s` whose identifier lies in `[start, end]`, in the order of `s`.
pub open spec fn range_of(s: Seq<QuestionView>, start: int, end: int) -> Seq<QuestionView> {
    s.filter(in_range(start, end))
}

/// Whether a question's identifier lies in `[start, end]`.
pub open spec fn in_range(start: int, end: int) -> spec_fn(QuestionView) -> bool {
    |q: QuestionView| start <= q.id <= end
}

/// The question that an update of `id` with `q` stores.
pub open spec fn replacement(id: int, q: QuestionView) -> QuestionView {
    normalized(QuestionView { id, ..q })
}

/// Some answer in `s` belongs to the question with identifier `question_id`.
pub open spec fn has_answer(s: Seq<AnswerView>, question_id: int) -> bool {
    exists|i: int| 0 <= i < s.len() && (#[trigger] s[i]).question_id == question_id
}

/// The answers of `s` that belong to the question with identifier `question_id`.
pub open spec fn answers_of(s: Seq<AnswerView>, question_id: int) -> Seq<AnswerView> {
    s.filter(|a: AnswerView| a.question_id == question_id)
}

/// The answers of `s` that do not belong to the question with identifier `question_id`.
pub open spec fn answers_not_of(s: Seq<AnswerView>, question_id: int) -> Seq<AnswerView> {
    s.filter(|a: AnswerView| a.question_id != question_id)
}

/// `s` with the content of every answer to question `question_id` replaced by `content`.
pub open spec fn answers_with_content(
    s: Seq<AnswerView>,
    question_id: int,
    content: Seq<char>,
) -> Seq<AnswerView> {
    s.map_values(
        |a: AnswerView|
            if a.question_id == question_id {
                AnswerView { content, ..a }
            } else {
                a
            },
    )
}

/// Some account in `s` has identifier `id`.
pub open spec fn has_account_id(s: Seq<AccountView>, id: int) -> bool {
    exists|i: int| 0 <= i < s.len() && (#[trigger] s[i]).id == id
}

/// Some account in `s` has e-mail address `email`.
pub open spec fn has_email(s: Seq<AccountView>, email: Seq<char>) -> bool {
    exists|i: int| 0 <= i < s.len() && (#[trigger] s[i]).email == email
}

/// The accounts as a store keeps them: identifiers valid and unique, e-mail
/// addresses unique.
pub open spec fn accounts_wf(s: Seq<AccountView>) -> bool {
    &&& forall|i: int| 0 <= i < s.len() ==> (#[trigger] s[i]).id >= 0
    &&& forall|i: int, j: int|
        0 <= i < s.len() && 0 <= j < s.len() && i != j ==> (#[trigger] s[i]).id != (#[trigger] s[j]).id
            && s[i].email != s[j].email
}

impl StoreView {
    pub open spec fn wf(self) -> bool {
        questions_wf(self.questions) && accounts_wf(self.accounts)
    }
}

/// In a sequence with unique identifiers, the question with a given
/// identifier is the one at its position.
pub proof fn lemma_lookup_at(s: Seq<QuestionView>, i: int)
    requires
        unique_ids(s),
        0 <= i < s.len(),
    ensures
        has_id(s, s[i].id),
        lookup(s, s[i].id) == Some(s[i]),
{
    assert(has_id(s, s[i].id));
}

/// Once `add_question(q)` has succeeded, `get_question` of its identifier
/// gives the question as the store keeps it; a question already in normal
/// form comes back unchanged.
pub proof fn lemma_get_after_insert(before: StoreView, q: QuestionView)
    requires
        before.wf(),
        q.id >= 0,
        !has_id(before.questions, q.id),
    ensures
        ({
            let after = before.questions.push(normalized(q));
            &&& has_id(after, q.id)
            &&& lookup(after, q.id) == Some(normalized(q))
            &&& is_normal(q) ==> lookup(after, q.id) == Some(q)
        }),
{
    let after = before.questions.push(normalized(q));
    assert forall|i: int, j: int|
        0 <= i < after.len() && 0 <= j < after.len() && i != j implies (#[trigger] after[i]).id
        != (#[trigger] after[j]).id by {
        if i == after.len() - 1 {
            assert(before.questions[j] == after[j]);
        } else if j == after.len() - 1 {
            assert(before.questions[i] == after[i]);
        }
    }
    lemma_lookup_at(after, after.len() - 1);
}

/// `list_range(start, end)` holds exactly the questions of
/// `get_all_questions()` whose identifier lies in `[start, end]`; it is empty
/// when no identifier does; and two collections that hold the same
/// questions, in whatever order they were inserted, give ranges that hold
/// the same questions.
pub proof fn lemma_range_contents(
    s: Seq<QuestionView>,
    other: Seq<QuestionView>,
    start: int,
    end: int,
)
    ensures
        forall|q: QuestionView|
            range_of(s, start, end).contains(q) <==> s.contains(q) && start <= q.id <= end,
        (forall|i: int| 0 <= i < s.len() ==> !(start <= (#[trigger] s[i]).id <= end)) ==> range_of(
            s,
            start,
            end,
        ) == Seq::<QuestionView>::empty(),
        s.to_set() == other.to_set() ==> range_of(s, start, end).to_set() == range_of(
            other,
            start,
            end,
        ).to_set(),
{
    lemma_range_contains(s, start, end);
    lemma_range_contains(other, start, end);
    if forall|i: int| 0 <= i < s.len() ==> !(start <= (#[trigger] s[i]).id <= end) {
        let r = range_of(s, start, end);
        if r.len() > 0 {
            assert(r.contains(r[0]));
            assert(s.contains(r[0]));
            let i = choose|i: int| 0 <= i < s.len() && s[i] == r[0];
            assert(start <= s[i].id <= end);
        }
        assert(r =~= Seq::<QuestionView>::empty());
    }
    if s.to_set() == other.to_set() {
        assert forall|q: QuestionView| s.contains(q) <==> other.contains(q) by {
            assert(s.to_set().contains(q) == s.contains(q));
            assert(other.to_set().contains(q) == other.contains(q));
        }
        assert forall|q: QuestionView|
            range_of(s, start, end).to_set().contains(q) <==> range_of(other, start, end).to_set().contains(q) by {
            assert(s.to_set().contains(q) == s.contains(q));
            assert(other.to_set().contains(q) == other.contains(q));
            assert(range_of(s, start, end).contains(q) <==> s.contains(q) && start <= q.id <= end);
            assert(range_of(other, start, end).contains(q) <==> other.contains(q) && start <= q.id <= end);
            assert(range_of(s, start, end).to_set().contains(q) == range_of(s, start, end).contains(q));
            assert(range_of(other, start, end).to_set().contains(q) == range_of(other, start, end).contains(q));
        }
        assert(range_of(s, start, end).to_set() =~= range_of(other, start, end).to_set());
    }
}

proof fn lemma_range_contains(s: Seq<QuestionView>, start: int, end: int)
    ensures
        forall|q: QuestionView|
            range_of(s, start, end).contains(q) <==> s.contains(q) && start <= q.id <= end,
{
    broadcast use vstd::seq_lib::group_filter_ensures;

    let pred = in_range(start, end);
    assert forall|q: QuestionView|
        range_of(s, start, end).contains(q) <==> s.contains(q) && start <= q.id <= end by {
        if range_of(s, start, end).contains(q) {
            let k = choose|k: int|
                0 <= k < s.filter(pred).len() && s.filter(pred)[k] == q;
            assert(pred(s.filter(pred)[k]));
            s.lemma_filter_contains_rev(pred, q);
        }
        if s.contains(q) && start <= q.id <= end {
            let k = choose|k: int| 0 <= k < s.len() && s[k] == q;
            assert(s.filter(pred).contains(s[k]));
        }
    }
}

/// After `delete_question` has removed a question no question has its
/// identifier, so deleting it a second time fails with `QuestionNotFound`.
pub proof fn lemma_delete_twice(before: StoreView, i: int)
    requires
        before.wf(),
        0 <= i < before.questions.len(),
    ensures
        !has_id(before.questions.remove(i), before.questions[i].id),
{
    let s = before.questions;
    let after = s.remove(i);
    if has_id(after, s[i].id) {
        let k = choose|k: int| 0 <= k < after.len() && (#[trigger] after[k]).id == s[i].id;
        let k2 = if k < i { k } else { k + 1 };
        assert(after[k] == s[k2]);
    }
}

/// The questions after inserting the first `k` of `qs`, each as the store
/// keeps it.
pub open spec fn after_inserts(s: Seq<QuestionView>, qs: Seq<QuestionView>, k: int) -> Seq<
    QuestionView,
> {
    s + qs.subrange(0, k).map_values(|q: QuestionView| normalized(q))
}

/// Calls of `add_question` with distinct valid identifiers, none already
/// present, all succeed in whatever order the writers are serialised;
/// afterwards `get_all_questions()` holds each of them once, exactly as many
/// questions as before plus the number inserted, and no identifier but the
/// earlier ones and the inserted ones.
pub proof fn lemma_distinct_inserts(before: StoreView, qs: Seq<QuestionView>)
    requires
        before.wf(),
        forall|k: int| 0 <= k < qs.len() ==> (#[trigger] qs[k]).id >= 0,
        forall|k: int| 0 <= k < qs.len() ==> !has_id(before.questions, (#[trigger] qs[k]).id),
        forall|a: int, b: int|
            0 <= a < qs.len() && 0 <= b < qs.len() && a != b ==> (#[trigger] qs[a]).id != (
            #[trigger] qs[b]).id,
    ensures
        forall|k: int|
            0 <= k < qs.len() ==> !has_id(
                #[trigger] after_inserts(before.questions, qs, k),
                qs[k].id,
            ) && after_inserts(before.questions, qs, k + 1) == after_inserts(
                before.questions,
                qs,
                k,
            ).push(normalized(qs[k])),
        ({
            let after = after_inserts(before.questions, qs, qs.len() as int);
            &&& after.len() == before.questions.len() + qs.len()
            &&& questions_wf(after)
            &&& forall|k: int|
                0 <= k < qs.len() ==> lookup(after, (#[trigger] qs[k]).id) == Some(normalized(qs[k]))
            &&& forall|x: int|
                has_id(after, x) <==> has_id(before.questions, x) || exists|k: int|
                    0 <= k < qs.len() && (#[trigger] qs[k]).id == x
        }),
{
    let s = before.questions;
    let n = s.len();
    assert forall|k: int| 0 <= k < qs.len() implies !has_id(
        #[trigger] after_inserts(s, qs, k),
        qs[k].id,
    ) && after_inserts(s, qs, k + 1) == after_inserts(s, qs, k).push(normalized(qs[k])) by {
        let a = after_inserts(s, qs, k);
        assert(after_inserts(s, qs, k + 1) =~= a.push(normalized(qs[k])));
        if has_id(a, qs[k].id) {
            let j = choose|j: int| 0 <= j < a.len() && (#[trigger] a[j]).id == qs[k].id;
            if j < n {
                assert(a[j] == s[j]);
            } else {
                assert(a[j] == normalized(qs[j - n]));
            }
        }
    }
    let after = after_inserts(s, qs, qs.len() as int);
    assert forall|i: int| 0 <= i < after.len() implies is_normal(#[trigger] after[i]) by {
        if i >= n {
            assert(after[i] == normalized(qs[i - n]));
            lemma_normalized_is_normal(qs[i - n]);
        }
    }
    assert forall|i: int, j: int|
        0 <= i < after.len() && 0 <= j < after.len() && i != j implies (#[trigger] after[i]).id
        != (#[trigger] after[j]).id by {
        if i < n && j < n {
        } else if i < n {
            assert(after[j] == normalized(qs[j - n]));
            assert(!has_id(s, qs[j - n].id));
        } else if j < n {
            assert(after[i] == normalized(qs[i - n]));
            assert(!has_id(s, qs[i - n].id));
        } else {
            assert(after[i] == normalized(qs[i - n]));
            assert(after[j] == normalized(qs[j - n]));
        }
    }
    assert forall|k: int| 0 <= k < qs.len() implies lookup(after, (#[trigger] qs[k]).id) == Some(
        normalized(qs[k]),
    ) by {
        assert(after[n + k] == normalized(qs[k]));
        lemma_lookup_at(after, n + k);
    }
    assert forall|x: int|
        has_id(after, x) <==> has_id(s, x) || exists|k: int| 0 <= k < qs.len() && (#[trigger] qs[k]).id == x by {
        if has_id(after, x) {
            let j = choose|j: int| 0 <= j < after.len() && (#[trigger] after[j]).id == x;
            if j < n {
                assert(s[j] == after[j]);
            } else {
                assert(after[j] == normalized(qs[j - n]));
                assert(qs[j - n].id == x);
            }
        }
        if has_id(s, x) {
            let j = choose|j: int| 0 <= j < s.len() && (#[trigger] s[j]).id == x;
            assert(after[j] == s[j]);
        }
        if exists|k: int| 0 <= k < qs.len() && (#[trigger] qs[k]).id == x {
            let k = choose|k: int| 0 <= k < qs.len() && (#[trigger] qs[k]).id == x;
            assert(after[n + k] == normalized(qs[k]));
        }
    }
}

/// `update_question` of a present question, followed by `get_question` of
/// its identifier, gives the new fields alone: nothing of the old question
/// is merged in.
pub proof fn lemma_get_after_update(before: StoreView, i: int, q: QuestionView)
    requires
        before.wf(),
        0 <= i < before.questions.len(),
    ensures
        ({
            let id = before.questions[i].id;
            let after = before.questions.update(i, replacement(id, q));
            &&& lookup(after, id) == Some(replacement(id, q))
            &&& replacement(id, q).title == q.title
            &&& replacement(id, q).content == q.content
            &&& replacement(id, q).tags == normal_tags(q.tags)
            &&& is_normal(QuestionView { id, ..q }) ==> lookup(after, id) == Some(
                QuestionView { id, ..q },
            )
        }),
{
    let s = before.questions;
    let id = s[i].id;
    let after = s.update(i, replacement(id, q));
    assert forall|a: int, b: int|
        0 <= a < after.len() && 0 <= b < after.len() && a != b implies (#[trigger] after[a]).id
        != (#[trigger] after[b]).id by {
        assert(after[a].id == s[a].id);
        assert(after[b].id == s[b].id);
    }
    lemma_lookup_at(after, i);
}

/// The store: one collection each of questions, answers and accounts.
///
/// Reads take `&self` and writes `&mut self`; each write is applied whole.
///
/// Each collection is a `Vec` in the order of insertion rather than a
/// `HashMap`: listing a hash map walks it in an order that each process seeds
/// anew, while listings and ranges here come out in one order that the
/// contracts state. Answers are keyed by their question, which many of them
/// share, and accounts are looked up by e-mail address, so neither has a
/// unique integer key for a map; a range is a scan of every question in any
/// case. Uniqueness of the keys, which a map would give, is part of `wf`.
pub struct AppState {
    questions: Vec<Question>,
    answers: Vec<Answer>,
    accounts: Vec<Account>,
}

impl View for AppState {
    type V = StoreView;

    closed spec fn view(&self) -> StoreView {
        StoreView {
            questions: questions_view(self.questions@),
            answers: answers_view(self.answers@),
            accounts: accounts_view(self.accounts@),
        }
    }
}

impl AppState {
    pub open spec fn wf(&self) -> bool {
        self@.wf()
    }

    /// An empty store.
    pub fn new() -> (r: AppState)
        ensures
            r.wf(),
            r@.questions == Seq::<QuestionView>::empty(),
            r@.answers == Seq::<AnswerView>::empty(),
            r@.accounts == Seq::<AccountView>::empty(),
    {
        let r = AppState { questions: Vec::new(), answers: Vec::new(), accounts: Vec::new() };
        assert(r@.questions =~= Seq::<QuestionView>::empty());
        assert(r@.answers =~= Seq::<AnswerView>::empty());
        assert(r@.accounts =~= Seq::<AccountView>::empty());
        r
    }

    fn find_question(&self, id: QuestionId) -> (r: Option<usize>)
        ensures
            r matches Some(i) ==> i < self@.questions.len() && self@.questions[i as int].id
                == id.0,
            r is None ==> !has_id(self@.questions, id.0 as int),
    {
        let mut i: usize = 0;
        while i < self.questions.len()
            invariant
                i <= self.questions.len(),
                forall|k: int| 0 <= k < i ==> (#[trigger] self@.questions[k]).id != id.0,
            decreases self.questions.len() - i,
        {
            assert(self@.questions[i as int] == self.questions@[i as int]@);
            if self.questions[i].id == id {
                return Some(i);
            }
            i = i + 1;
        }
        None
    }

    /// The question with identifier `id`.
    pub fn get_question(&self, id: &QuestionId) -> (r: Result<Question, ApiError>)
        requires
            self.wf(),
        ensures
            r is Ok <==> has_id(self@.questions, id.0 as int),
            r matches Ok(q) ==> lookup(self@.questions, id.0 as int) == Some(q@),
            r is Err ==> r == Err::<Question, ApiError>(ApiError::QuestionNotFound),
    {
        match self.find_question(*id) {
            Some(i) => {
                proof {
                    lemma_lookup_at(self@.questions, i as int);
                }
                Ok(self.questions[i].clone())
            },
            None => Err(ApiError::QuestionNotFound),
        }
    }

    /// Every question, in the order of insertion.
    pub fn get_all_questions(&self) -> (r: Vec<Question>)
        ensures
            questions_view(r@) == self@.questions,
    {
        let mut r: Vec<Question> = Vec::new();
        let mut i: usize = 0;
        while i < self.questions.len()
            invariant
                i <= self.questions.len(),
                r@.len() == i,
                forall|k: int| 0 <= k < i ==> (#[trigger] r@[k])@ == self@.questions[k],
            decreases self.questions.len() - i,
        {
            r.push(self.questions[i].clone());
            i = i + 1;
        }
        assert(questions_view(r@) =~= self@.questions);
        r
    }

    /// The questions whose identifier lies in `[start, end]`, in the order of
    /// insertion. Identifiers compare as numbers.
    pub fn list_range(&self, start: QuestionId, end: QuestionId) -> (r: Vec<Question>)
        ensures
            questions_view(r@) == range_of(self@.questions, start.0 as int, end.0 as int),
    {
        let ghost s = self@.questions;
        let ghost pred = in_range(start.0 as int, end.0 as int);
        let mut r: Vec<Question> = Vec::new();
        let mut i: usize = 0;
        while i < self.questions.len()
            invariant
                i <= self.questions.len(),
                s == self@.questions,
                pred == in_range(start.0 as int, end.0 as int),
                questions_view(r@) == s.subrange(0, i as int).filter(pred),
            decreases self.questions.len() - i,
        {
            proof {
                reveal(Seq::filter);
                assert(s.subrange(0, i as int + 1).drop_last() =~= s.subrange(0, i as int));
                assert(s[i as int] == self.questions@[i as int]@);
            }
            let id = self.questions[i].id.0;
            if start.0 <= id && id <= end.0 {
                let q = self.questions[i].clone();
                let ghost prev = r@;
                r.push(q);
                assert(questions_view(r@) =~= questions_view(prev).push(q@)) by {
                    assert(questions_view(prev).len() == prev.len());
                    assert forall|k: int| 0 <= k < prev.len() implies r@[k]@ == questions_view(prev)[k] by {
                        assert(r@[k] == prev[k]);
                    }
                }
            }
            i = i + 1;
        }
        assert(s.subrange(0, i as int) =~= s);
        r
    }

    /// Adds a question under its own identifier, with its tags in normal form.
    pub fn add_question(&mut self, question: Question) -> (r: Result<(), ApiError>)
        requires
            old(self).wf(),
        ensures
            final(self).wf(),
            final(self)@.answers == old(self)@.answers,
            final(self)@.accounts == old(self)@.accounts,
            question.id.0 < 0 ==> r == Err::<(), ApiError>(ApiError::InvalidIdentifier),
            question.id.0 >= 0 && has_id(old(self)@.questions, question.id.0 as int) ==> r
                == Err::<(), ApiError>(ApiError::DuplicateIdentifier),
            r is Ok <==> question.id.0 >= 0 && !has_id(old(self)@.questions, question.id.0 as int),
            r is Ok ==> final(self)@.questions == old(self)@.questions.push(normalized(question@)),
            r is Err ==> final(self)@ == old(self)@,
    {
        if question.id.0 < 0 {
            return Err(ApiError::InvalidIdentifier);
        }
        if self.find_question(question.id).is_some() {
            return Err(ApiError::DuplicateIdentifier);
        }
        let ghost before = self@;
        let q = Question {
            id: question.id,
            title: question.title,
            content: question.content,
            tags: normalize_tags(question.tags),
        };
        assert(q@ == normalized(question@));
        self.questions.push(q);
        proof {
            lemma_normalized_is_normal(question@);
            assert(self@.questions =~= before.questions.push(q@));
            let s = self@.questions;
            assert forall|i: int, j: int|
                0 <= i < s.len() && 0 <= j < s.len() && i != j implies (#[trigger] s[i]).id
                != (#[trigger] s[j]).id by {
                if i == s.len() - 1 {
                    assert(before.questions[j] == s[j]);
                } else if j == s.len() - 1 {
                    assert(before.questions[i] == s[i]);
                }
            }
        }
        Ok(())
    }

    /// Replaces the question with identifier `id` by `question`, which keeps
    /// the identifier `id` and gets its tags in normal form. No field of the
    /// old question is kept.
    pub fn update_question(&mut self, id: &QuestionId, question: Question) -> (r: Result<(), ApiError>)
        requires
            old(self).wf(),
        ensures
            final(self).wf(),
            final(self)@.answers == old(self)@.answers,
            final(self)@.accounts == old(self)@.accounts,
            r is Ok <==> has_id(old(self)@.questions, id.0 as int),
            r is Ok ==> exists|i: int|
                0 <= i < old(self)@.questions.len() && (#[trigger] old(self)@.questions[i]).id == id.0
                    && final(self)@.questions == old(self)@.questions.update(
                    i,
                    replacement(id.0 as int, question@),
                ),
            r is Err ==> r == Err::<(), ApiError>(ApiError::QuestionNotFound) && final(self)@ == old(
                self,
            )@,
    {
        match self.find_question(*id) {
            None => Err(ApiError::QuestionNotFound),
            Some(i) => {
                let ghost before = self@;
                let q = Question {
                    id: *id,
                    title: question.title,
                    content: question.content,
                    tags: normalize_tags(question.tags),
                };
                assert(q@ == replacement(id.0 as int, question@));
                self.questions.set(i, q);
                proof {
                    assert(id.0 >= 0) by {
                        assert(is_normal(before.questions[i as int]));
                    }
                    lemma_normalized_is_normal(QuestionView { id: id.0 as int, ..question@ });
                    assert(self@.questions =~= before.questions.update(i as int, q@));
                    let s = self@.questions;
                    assert forall|a: int, b: int|
                        0 <= a < s.len() && 0 <= b < s.len() && a != b implies (#[trigger] s[a]).id
                        != (#[trigger] s[b]).id by {
                        assert(s[a].id == before.questions[a].id);
                        assert(s[b].id == before.questions[b].id);
                    }
                }
                Ok(())
            },
        }
    }

    /// Removes the question with identifier `id`. Its answers stay.
    pub fn delete_question(&mut self, id: &QuestionId) -> (r: Result<(), ApiError>)
        requires
            old(self).wf(),
        ensures
            final(self).wf(),
            final(self)@.answers == old(self)@.answers,
            final(self)@.accounts == old(self)@.accounts,
            r is Ok <==> has_id(old(self)@.questions, id.0 as int),
            r is Ok ==> exists|i: int|
                0 <= i < old(self)@.questions.len() && (#[trigger] old(self)@.questions[i]).id == id.0
                    && final(self)@.questions == old(self)@.questions.remove(i),
            r is Err ==> r == Err::<(), ApiError>(ApiError::QuestionNotFound) && final(self)@ == old(
                self,
            )@,
    {
        match self.find_question(*id) {
            None => Err(ApiError::QuestionNotFound),
            Some(i) => {
                let ghost before = self@;
                self.questions.remove(i);
                proof {
                    assert(self@.questions =~= before.questions.remove(i as int));
                    let s = self@.questions;
                    assert forall|a: int, b: int|
                        0 <= a < s.len() && 0 <= b < s.len() && a != b implies (#[trigger] s[a]).id
                        != (#[trigger] s[b]).id by {
                        let a2 = if a < i { a } else { a + 1 };
                        let b2 = if b < i { b } else { b + 1 };
                        assert(s[a] == before.questions[a2]);
                        assert(s[b] == before.questions[b2]);
                    }
                    assert forall|a: int| 0 <= a < s.len() implies is_normal(#[trigger] s[a]) by {
                        let a2 = if a < i { a } else { a + 1 };
                        assert(s[a] == before.questions[a2]);
                    }
                }
                Ok(())
            },
        }
    }

    /// Adds an answer. Whether its question exists is the caller's concern.
    pub fn add_answer(&mut self, answer: Answer)
        requires
            old(self).wf(),
        ensures
            final(self).wf(),
            final(self)@.questions == old(self)@.questions,
            final(self)@.accounts == old(self)@.accounts,
            final(self)@.answers == old(self)@.answers.push(answer@),
    {
        let ghost before = self@;
        self.answers.push(answer);
        assert(self@.answers =~= before.answers.push(answer@));
    }

    /// The answers to the question with identifier `question_id`, in the order
    /// of insertion.
    pub fn get_answers(&self, question_id: &QuestionId) -> (r: Vec<Answer>)
        ensures
            answers_view(r@) == answers_of(self@.answers, question_id.0 as int),
    {
        let ghost s = self@.answers;
        let ghost pred = |a: AnswerView| a.question_id == question_id.0;
        let mut r: Vec<Answer> = Vec::new();
        let mut i: usize = 0;
        while i < self.answers.len()
            invariant
                i <= self.answers.len(),
                s == self@.answers,
                pred == (|a: AnswerView| a.question_id == question_id.0),
                answers_view(r@) == s.subrange(0, i as int).filter(pred),
            decreases self.answers.len() - i,
        {
            proof {
                reveal(Seq::filter);
                assert(s.subrange(0, i as int + 1).drop_last() =~= s.subrange(0, i as int));
                assert(s[i as int] == self.answers@[i as int]@);
            }
            if self.answers[i].question_id == *question_id {
                let a = self.answers[i].clone();
                let ghost prev = r@;
                r.push(a);
                assert(answers_view(r@) =~= answers_view(prev).push(a@)) by {
                    assert(answers_view(prev).len() == prev.len());
                    assert forall|k: int| 0 <= k < prev.len() implies r@[k]@ == answers_view(prev)[k] by {
                        assert(r@[k] == prev[k]);
                    }
                }
            }
            i = i + 1;
        }
        assert(s.subrange(0, i as int) =~= s);
        r
    }

    /// Removes every answer to the question with identifier `question_id`.
    pub fn delete_answer(&mut self, question_id: &QuestionId) -> (r: Result<(), ApiError>)
        requires
            old(self).wf(),
        ensures
            final(self).wf(),
            final(self)@.questions == old(self)@.questions,
            final(self)@.accounts == old(self)@.accounts,
            r is Ok <==> has_answer(old(self)@.answers, question_id.0 as int),
            r is Ok ==> final(self)@.answers == answers_not_of(old(self)@.answers, question_id.0 as int),
            r is Err ==> r == Err::<(), ApiError>(ApiError::AnswerNotFound) && final(self)@ == old(
                self,
            )@,
    {
        let ghost s = self@.answers;
        let ghost pred = |a: AnswerView| a.question_id != question_id.0;
        let mut kept: Vec<Answer> = Vec::new();
        let mut found = false;
        let mut i: usize = 0;
        while i < self.answers.len()
            invariant
                i <= self.answers.len(),
                s == self@.answers,
                pred == (|a: AnswerView| a.question_id != question_id.0),
                answers_view(kept@) == s.subrange(0, i as int).filter(pred),
                found <==> exists|k: int| 0 <= k < i && (#[trigger] s[k]).question_id == question_id.0,
            decreases self.answers.len() - i,
        {
            proof {
                reveal(Seq::filter);
                assert(s.subrange(0, i as int + 1).drop_last() =~= s.subrange(0, i as int));
                assert(s[i as int] == self.answers@[i as int]@);
            }
            if self.answers[i].question_id == *question_id {
                found = true;
            } else {
                let a = self.answers[i].clone();
                let ghost prev = kept@;
                kept.push(a);
                assert(answers_view(kept@) =~= answers_view(prev).push(a@)) by {
                    assert(answers_view(prev).len() == prev.len());
                    assert forall|k: int| 0 <= k < prev.len() implies kept@[k]@ == answers_view(prev)[k] by {
                        assert(kept@[k] == prev[k]);
                    }
                }
            }
            i = i + 1;
        }
        assert(s.subrange(0, i as int) =~= s);
        if !found {
            return Err(ApiError::AnswerNotFound);
        }
        self.answers = kept;
        Ok(())
    }

    /// Gives every answer to the question with identifier `question_id` the
    /// content of `answer`.
    pub fn update_answer(&mut self, question_id: &QuestionId, answer: Answer) -> (r: Result<
        (),
        ApiError,
    >)
        requires
            old(self).wf(),
        ensures
            final(self).wf(),
            final(self)@.questions == old(self)@.questions,
            final(self)@.accounts == old(self)@.accounts,
            r is Ok <==> has_answer(old(self)@.answers, question_id.0 as int),
            r is Ok ==> final(self)@.answers == answers_with_content(
                old(self)@.answers,
                question_id.0 as int,
                answer@.content,
            ),
            r is Err ==> r == Err::<(), ApiError>(ApiError::AnswerNotFound) && final(self)@ == old(
                self,
            )@,
    {
        let ghost before = self@;
        let ghost target = answers_with_content(before.answers, question_id.0 as int, answer@.content);
        let mut found = false;
        let mut i: usize = 0;
        while i < self.answers.len()
            invariant
                i <= self.answers.len(),
                self.answers.len() == before.answers.len(),
                before == old(self)@,
                target == answers_with_content(before.answers, question_id.0 as int, answer@.content),
                self@.questions == before.questions,
                self@.accounts == before.accounts,
                forall|k: int| 0 <= k < i ==> (#[trigger] self@.answers[k]) == target[k],
                forall|k: int| i <= k < self.answers.len() ==> (#[trigger] self@.answers[k]) == before.answers[k],
                found <==> exists|k: int| 0 <= k < i && (#[trigger] before.answers[k]).question_id == question_id.0,
            decreases self.answers.len() - i,
        {
            assert(self@.answers[i as int] == self.answers@[i as int]@);
            assert(target[i as int] == (if before.answers[i as int].question_id == question_id.0 {
                AnswerView { content: answer@.content, ..before.answers[i as int] }
            } else {
                before.answers[i as int]
            }));
            if self.answers[i].question_id == *question_id {
                let ghost prev = self.answers@;
                let ghost prev_view = self@.answers;
                let a = Answer { content: answer.content.clone(), question_id: *question_id };
                self.answers.set(i, a);
                found = true;
                assert forall|k: int| 0 <= k < self.answers.len() && k != i implies
                    #[trigger] self@.answers[k] == prev_view[k] by {
                    assert(self.answers@[k] == prev[k]);
                    assert(prev_view[k] == prev[k]@);
                }
                assert(self@.answers[i as int] == a@);
            }
            i = i + 1;
        }
        if !found {
            assert(self@.answers =~= before.answers);
            return Err(ApiError::AnswerNotFound);
        }
        assert(self@.answers =~= target);
        Ok(())
    }

    fn find_email(&self, email: &String) -> (r: Option<usize>)
        ensures
            r matches Some(i) ==> i < self@.accounts.len() && self@.accounts[i as int].email
                == email@,
            r is None ==> !has_email(self@.accounts, email@),
    {
        let mut i: usize = 0;
        while i < self.accounts.len()
            invariant
                i <= self.accounts.len(),
                forall|k: int| 0 <= k < i ==> (#[trigger] self@.accounts[k]).email != email@,
            decreases self.accounts.len() - i,
        {
            assert(self@.accounts[i as int] == self.accounts@[i as int]@);
            if self.accounts[i].email == *email {
                return Some(i);
            }
            i = i + 1;
        }
        None
    }

    fn find_account_id(&self, id: AccountId) -> (r: bool)
        ensures
            r == has_account_id(self@.accounts, id.0 as int),
    {
        let mut i: usize = 0;
        while i < self.accounts.len()
            invariant
                i <= self.accounts.len(),
                forall|k: int| 0 <= k < i ==> (#[trigger] self@.accounts[k]).id != id.0,
            decreases self.accounts.len() - i,
        {
            assert(self@.accounts[i as int] == self.accounts@[i as int]@);
            if self.accounts[i].id == id {
                return true;
            }
            i = i + 1;
        }
        false
    }

    /// Adds an account under its own identifier. Both its identifier and its
    /// e-mail address must be new to the store.
    pub fn add_account(&mut self, account: Account) -> (r: Result<(), ApiError>)
        requires
            old(self).wf(),
        ensures
            final(self).wf(),
            final(self)@.questions == old(self)@.questions,
            final(self)@.answers == old(self)@.answers,
            account.id.0 < 0 ==> r == Err::<(), ApiError>(ApiError::InvalidIdentifier),
            account.id.0 >= 0 && (has_account_id(old(self)@.accounts, account.id.0 as int)
                || has_email(old(self)@.accounts, account.email@)) ==> r == Err::<(), ApiError>(
                ApiError::DuplicateIdentifier,
            ),
            r is Ok <==> account.id.0 >= 0 && !has_account_id(old(self)@.accounts, account.id.0 as int)
                && !has_email(old(self)@.accounts, account.email@),
            r is Ok ==> final(self)@.accounts == old(self)@.accounts.push(account@),
            r is Err ==> final(self)@ == old(self)@,
    {
        if account.id.0 < 0 {
            return Err(ApiError::InvalidIdentifier);
        }
        if self.find_account_id(account.id) || self.find_email(&account.email).is_some() {
            return Err(ApiError::DuplicateIdentifier);
        }
        let ghost before = self@;
        let ghost a = account@;
        self.accounts.push(account);
        proof {
            assert(self@.accounts =~= before.accounts.push(a));
            let s = self@.accounts;
            assert forall|i: int, j: int|
                0 <= i < s.len() && 0 <= j < s.len() && i != j implies (#[trigger] s[i]).id
                != (#[trigger] s[j]).id && s[i].email != s[j].email by {
                if i == s.len() - 1 {
                    assert(before.accounts[j] == s[j]);
                } else if j == s.len() - 1 {
                    assert(before.accounts[i] == s[i]);
                }
            }
        }
        Ok(())
    }

    /// The account with e-mail address `email`.
    pub fn get_account(&self, email: &str) -> (r: Result<Account, ApiError>)
        ensures
            r is Ok <==> has_email(self@.accounts, email@),
            r matches Ok(a) ==> exists|i: int|
                0 <= i < self@.accounts.len() && (#[trigger] self@.accounts[i]).email == email@
                    && a@ == self@.accounts[i],
            r is Err ==> r == Err::<Account, ApiError>(ApiError::AccountNotFound),
    {
        let key = email.to_owned();
        match self.find_email(&key) {
            Some(i) => Ok(self.accounts[i].clone()),
            None => Err(ApiError::AccountNotFound),
        }
    }

    /// Removes the account with e-mail address `email`.
    pub fn delete_account(&mut self, email: &str) -> (r: Result<(), ApiError>)
        requires
            old(self).wf(),
        ensures
            final(self).wf(),
            final(self)@.questions == old(self)@.questions,
            final(self)@.answers == old(self)@.answers,
            r is Ok <==> has_email(old(self)@.accounts, email@),
            r is Ok ==> exists|i: int|
                0 <= i < old(self)@.accounts.len() && (#[trigger] old(self)@.accounts[i]).email == email@
                    && final(self)@.accounts == old(self)@.accounts.remove(i),
            r is Err ==> r == Err::<(), ApiError>(ApiError::AccountNotFound) && final(self)@ == old(
                self,
            )@,
    {
        let key = email.to_owned();
        match self.find_email(&key) {
            None => Err(ApiError::AccountNotFound),
            Some(i) => {
                let ghost before = self@;
                self.accounts.remove(i);
                proof {
                    assert(self@.accounts =~= before.accounts.remove(i as int));
                    let s = self@.accounts;
                    assert forall|a: int, b: int|
                        0 <= a < s.len() && 0 <= b < s.len() && a != b implies (#[trigger] s[a]).id
                        != (#[trigger] s[b]).id && s[a].email != s[b].email by {
                        let a2 = if a < i { a } else { a + 1 };
                        let b2 = if b < i { b } else { b + 1 };
                        assert(s[a] == before.accounts[a2]);
                        assert(s[b] == before.accounts[b2]);
                    }
                    assert forall|a: int| 0 <= a < s.len() implies (#[trigger] s[a]).id >= 0 by {
                        let a2 = if a < i { a } else { a + 1 };
                        assert(s[a] == before.accounts[a2]);
                    }
                }
                Ok(())
            },
        }
    }

    /// Gives the account with e-mail address `email` the e-mail address and
    /// password of `account`; its identifier stays. The new address must not
    /// belong to another account.
    pub fn update_account(&mut self, email: &str, account: Account) -> (r: Result<(), ApiError>)
        requires
            old(self).wf(),
        ensures
            final(self).wf(),
            final(self)@.questions == old(self)@.questions,
            final(self)@.answers == old(self)@.answers,
            !has_email(old(self)@.accounts, email@) ==> r == Err::<(), ApiError>(
                ApiError::AccountNotFound,
            ),
            r is Ok <==> has_email(old(self)@.accounts, email@) && (account.email@ == email@
                || !has_email(old(self)@.accounts, account.email@)),
            has_email(old(self)@.accounts, email@) && !(r is Ok) ==> r == Err::<(), ApiError>(
                ApiError::DuplicateIdentifier,
            ),
            r is Ok ==> exists|i: int|
                0 <= i < old(self)@.accounts.len() && (#[trigger] old(self)@.accounts[i]).email == email@
                    && final(self)@.accounts == old(self)@.accounts.update(
                    i,
                    AccountView {
                        id: old(self)@.accounts[i].id,
                        email: account.email@,
                        password: account.password@,
                    },
                ),
            r is Err ==> final(self)@ == old(self)@,
    {
        let key = email.to_owned();
        match self.find_email(&key) {
            None => Err(ApiError::AccountNotFound),
            Some(i) => {
                if account.email != key {
                    if self.find_email(&account.email).is_some() {
                        return Err(ApiError::DuplicateIdentifier);
                    }
                } else {
                    proof {
                        if !(account.email@ == email@ || !has_email(self@.accounts, account.email@)) {
                            assert(false);
                        }
                    }
                }
                let ghost before = self@;
                let id = self.accounts[i].id;
                assert(id.0 == before.accounts[i as int].id);
                let a = Account { id, email: account.email, password: account.password };
                self.accounts.set(i, a);
                proof {
                    assert(self@.accounts =~= before.accounts.update(i as int, a@));
                    let s = self@.accounts;
                    assert forall|x: int, y: int|
                        0 <= x < s.len() && 0 <= y < s.len() && x != y implies (#[trigger] s[x]).id
                        != (#[trigger] s[y]).id && s[x].email != s[y].email by {
                        if x == i {
                            assert(before.accounts[y] == s[y]);
                            if s[x].email == s[y].email && a@.email != email@ {
                                assert(has_email(before.accounts, a@.email));
                            }
                        } else if y == i {
                            assert(before.accounts[x] == s[x]);
                            if s[x].email == s[y].email && a@.email != email@ {
                                assert(has_email(before.accounts, a@.email));
                            }
                        } else {
                            assert(before.accounts[x] == s[x]);
                            assert(before.accounts[y] == s[y]);
                        }
                    }
                    assert forall|x: int| 0 <= x < s.len() implies (#[trigger] s[x]).id >= 0 by {
                        if x != i {
                            assert(before.accounts[x] == s[x]);
                        }
                    }
                }
                Ok(())
            },
        }
    }
}

} // verus!
