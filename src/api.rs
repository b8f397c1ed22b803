//! Failures and their responses, and the logic of each request: which
//! parameters it needs and which store operation it makes.

use vstd::prelude::*;

use crate::database::{
    answers_of, answers_view, has_answer, has_email, has_id, lookup, questions_view, range_of,
    replacement, answers_not_of, answers_with_content, Account, AccountView, Answer, AppState,
};
use crate::question::{digits_value, id_digits, is_id_text, tags_view, Question, QuestionId, QuestionView, UpdateQuestion};

verus! {

/// Failures of the store and of the request logic around it.
#[derive(Debug, PartialEq, Eq)]
pub enum ApiError {
    /// A required query or body field is absent.
    MissingParameters,
    /// An identifier's text is not a non-negative decimal `i32`.
    InvalidIdentifier,
    /// A record with the given identifier is already present.
    DuplicateIdentifier,
    QuestionNotFound,
    AccountNotFound,
    AnswerNotFound,
    /// A failure of an underlying storage layer, with its message.
    DatabaseError(String),
}

/// HTTP status that answers a request failing with `e`.
pub open spec fn status_of(e: ApiError) -> u16 {
    match e {
        ApiError::MissingParameters => 400,
        ApiError::InvalidIdentifier => 400,
        ApiError::DuplicateIdentifier => 409,
        ApiError::QuestionNotFound => 404,
        ApiError::AccountNotFound => 404,
        ApiError::AnswerNotFound => 404,
        ApiError::DatabaseError(_) => 500,
    }
}

/// What a failure says of itself.
pub open spec fn message_of(e: ApiError) -> Seq<char> {
    match e {
        ApiError::MissingParameters => "Missing parameter"@,
        ApiError::InvalidIdentifier => "Invalid identifier"@,
        ApiError::DuplicateIdentifier => "Duplicate identifier"@,
        ApiError::QuestionNotFound => "Question not found"@,
        ApiError::AccountNotFound => "Account not found"@,
        ApiError::AnswerNotFound => "Answer not found"@,
        ApiError::DatabaseError(m) => "Database error: "@ + m@,
    }
}

/// The body of the response to a request failing with `e`: the storage
/// layer's own message for a storage failure, else the failure's message.
pub open spec fn body_of(e: ApiError) -> Seq<char> {
    match e {
        ApiError::DatabaseError(m) => m@,
        _ => message_of(e),
    }
}

impl ApiError {
    pub fn status_code(&self) -> (r: u16)
        ensures
            r == status_of(*self),
    {
        match self {
            ApiError::MissingParameters => 400,
            ApiError::InvalidIdentifier => 400,
            ApiError::DuplicateIdentifier => 409,
            ApiError::QuestionNotFound => 404,
            ApiError::AccountNotFound => 404,
            ApiError::AnswerNotFound => 404,
            ApiError::DatabaseError(_) => 500,
        }
    }

    pub fn message(&self) -> (r: String)
        ensures
            r@ == message_of(*self),
    {
        match self {
            ApiError::MissingParameters => "Missing parameter".to_owned(),
            ApiError::InvalidIdentifier => "Invalid identifier".to_owned(),
            ApiError::DuplicateIdentifier => "Duplicate identifier".to_owned(),
            ApiError::QuestionNotFound => "Question not found".to_owned(),
            ApiError::AccountNotFound => "Account not found".to_owned(),
            ApiError::AnswerNotFound => "Answer not found".to_owned(),
            ApiError::DatabaseError(m) => {
                let mut r = "Database error: ".to_owned();
                r.append(m.as_str());
                r
            },
        }
    }

    pub fn body(&self) -> (r: String)
        ensures
            r@ == body_of(*self),
    {
        match self {
            ApiError::DatabaseError(m) => m.clone(),
            _ => self.message(),
        }
    }
}

/// The bounds of a range of question identifiers; both or neither.
#[derive(Debug)]
pub struct Pagination {
    pub start: Option<QuestionId>,
    pub end: Option<QuestionId>,
}

/// The identifier that an optional bound's text names.
pub open spec fn bound_of(text: Option<String>) -> Option<QuestionId> {
    match text {
        Some(t) => Some(QuestionId(digits_value(id_digits(t@)) as i32)),
        None => None,
    }
}

pub open spec fn bound_is_valid(text: Option<String>) -> bool {
    match text {
        Some(t) => is_id_text(t@),
        None => true,
    }
}

impl Pagination {
    /// Reads the bounds of a range request from their text.
    pub fn parse(start: Option<String>, end: Option<String>) -> (r: Result<Pagination, ApiError>)
        ensures
            r is Ok <==> bound_is_valid(start) && bound_is_valid(end),
            r matches Ok(p) ==> p.start == bound_of(start) && p.end == bound_of(end),
            r is Err ==> r == Err::<Pagination, ApiError>(ApiError::InvalidIdentifier),
    {
        let s = match &start {
            None => None,
            Some(t) => Some(QuestionId::parse(t.as_str())?),
        };
        let e = match &end {
            None => None,
            Some(t) => Some(QuestionId::parse(t.as_str())?),
        };
        Ok(Pagination { start: s, end: e })
    }
}

/// The identifier of a question named by a request.
#[derive(Debug)]
pub struct IdParam {
    pub id: Option<i32>,
}

/// The account named by a request.
#[derive(Debug)]
pub struct UserAccountInfo {
    pub email: Option<String>,
    pub password: Option<String>,
}

/// Every question when the request names no bounds, the questions with
/// identifiers in `[start, end]` when it names both.
pub fn get_questions(state: &AppState, pagination: &Pagination) -> (r: Result<
    Vec<Question>,
    ApiError,
>)
    ensures
        match (pagination.start, pagination.end) {
            (None, None) => r matches Ok(v) && questions_view(v@) == state@.questions,
            (Some(s), Some(e)) => r matches Ok(v) && questions_view(v@) == range_of(
                state@.questions,
                s.0 as int,
                e.0 as int,
            ),
            _ => r == Err::<Vec<Question>, ApiError>(ApiError::MissingParameters),
        },
{
    match (pagination.start, pagination.end) {
        (None, None) => Ok(state.get_all_questions()),
        (Some(s), Some(e)) => Ok(state.list_range(s, e)),
        _ => Err(ApiError::MissingParameters),
    }
}

/// The question that the request names.
pub fn get_question(state: &AppState, param: &IdParam) -> (r: Result<Question, ApiError>)
    requires
        state.wf(),
    ensures
        match param.id {
            None => r == Err::<Question, ApiError>(ApiError::MissingParameters),
            Some(id) => match lookup(state@.questions, id as int) {
                Some(q) => r matches Ok(x) && x@ == q,
                None => r == Err::<Question, ApiError>(ApiError::QuestionNotFound),
            },
        },
{
    match param.id {
        None => Err(ApiError::MissingParameters),
        Some(id) => state.get_question(&QuestionId(id)),
    }
}

/// The identifier that a replacing request names: the query's, else the body's.
pub open spec fn put_target(param: Option<i32>, body: Option<QuestionId>) -> Option<int> {
    match param {
        Some(id) => Some(id as int),
        None => match body {
            Some(id) => Some(id.0 as int),
            None => None,
        },
    }
}

pub open spec fn update_view(q: UpdateQuestion) -> QuestionView {
    QuestionView { id: 0, title: q.title@, content: q.content@, tags: tags_view(q.tags) }
}

/// Replaces the question that the request names (see `put_target`) by the
/// body's fields.
pub fn put_question(state: &mut AppState, param: &IdParam, question: UpdateQuestion) -> (r: Result<
    (),
    ApiError,
>)
    requires
        old(state).wf(),
    ensures
        final(state).wf(),
        final(state)@.answers == old(state)@.answers,
        final(state)@.accounts == old(state)@.accounts,
        put_target(param.id, question.id) is None ==> r == Err::<(), ApiError>(
            ApiError::MissingParameters,
        ),
        put_target(param.id, question.id) matches Some(id) ==> {
            &&& r is Ok <==> has_id(old(state)@.questions, id)
            &&& r is Ok ==> exists|i: int|
                0 <= i < old(state)@.questions.len() && (#[trigger] old(state)@.questions[i]).id == id
                    && final(state)@.questions == old(state)@.questions.update(
                    i,
                    replacement(id, update_view(question)),
                )
            &&& r is Err ==> r == Err::<(), ApiError>(ApiError::QuestionNotFound)
        },
        r is Err ==> final(state)@ == old(state)@,
{
    let id = match param.id {
        Some(id) => QuestionId(id),
        None => match question.id {
            Some(id) => id,
            None => return Err(ApiError::MissingParameters),
        },
    };
    let q = Question { id, title: question.title, content: question.content, tags: question.tags };
    assert(replacement(id.0 as int, q@) == replacement(id.0 as int, update_view(question)));
    state.update_question(&id, q)
}

/// Removes the question that the request names.
pub fn delete_question(state: &mut AppState, param: &IdParam) -> (r: Result<(), ApiError>)
    requires
        old(state).wf(),
    ensures
        final(state).wf(),
        final(state)@.answers == old(state)@.answers,
        final(state)@.accounts == old(state)@.accounts,
        param.id is None ==> r == Err::<(), ApiError>(ApiError::MissingParameters),
        param.id matches Some(id) ==> {
            &&& r is Ok <==> has_id(old(state)@.questions, id as int)
            &&& r is Ok ==> exists|i: int|
                0 <= i < old(state)@.questions.len() && (#[trigger] old(state)@.questions[i]).id == id
                    && final(state)@.questions == old(state)@.questions.remove(i)
            &&& r is Err ==> r == Err::<(), ApiError>(ApiError::QuestionNotFound)
        },
        r is Err ==> final(state)@ == old(state)@,
{
    match param.id {
        None => Err(ApiError::MissingParameters),
        Some(id) => state.delete_question(&QuestionId(id)),
    }
}

/// Adds an answer to a question that exists.
pub fn post_answer(state: &mut AppState, answer: Answer) -> (r: Result<(), ApiError>)
    requires
        old(state).wf(),
    ensures
        final(state).wf(),
        r is Ok <==> has_id(old(state)@.questions, answer.question_id.0 as int),
        r is Ok ==> final(state)@.answers == old(state)@.answers.push(answer@)
            && final(state)@.questions == old(state)@.questions
            && final(state)@.accounts == old(state)@.accounts,
        r is Err ==> r == Err::<(), ApiError>(ApiError::QuestionNotFound) && final(state)@ == old(
            state,
        )@,
{
    if state.get_question(&answer.question_id).is_err() {
        return Err(ApiError::QuestionNotFound);
    }
    state.add_answer(answer);
    Ok(())
}

/// The answers to the question that the request names.
pub fn get_answers(state: &AppState, param: &IdParam) -> (r: Result<Vec<Answer>, ApiError>)
    ensures
        match param.id {
            None => r == Err::<Vec<Answer>, ApiError>(ApiError::MissingParameters),
            Some(id) => r matches Ok(v) && answers_view(v@) == answers_of(
                state@.answers,
                id as int,
            ),
        },
{
    match param.id {
        None => Err(ApiError::MissingParameters),
        Some(id) => Ok(state.get_answers(&QuestionId(id))),
    }
}

/// Removes the answers to the question that the request names.
pub fn delete_answer(state: &mut AppState, param: &IdParam) -> (r: Result<(), ApiError>)
    requires
        old(state).wf(),
    ensures
        final(state).wf(),
        final(state)@.questions == old(state)@.questions,
        final(state)@.accounts == old(state)@.accounts,
        param.id is None ==> r == Err::<(), ApiError>(ApiError::MissingParameters),
        param.id matches Some(id) ==> {
            &&& r is Ok <==> has_answer(old(state)@.answers, id as int)
            &&& r is Ok ==> final(state)@.answers == answers_not_of(old(state)@.answers, id as int)
            &&& r is Err ==> r == Err::<(), ApiError>(ApiError::AnswerNotFound)
        },
        r is Err ==> final(state)@ == old(state)@,
{
    match param.id {
        None => Err(ApiError::MissingParameters),
        Some(id) => state.delete_answer(&QuestionId(id)),
    }
}

/// Gives the answers to the question that the request names the content of
/// `answer`.
pub fn put_answer(state: &mut AppState, param: &IdParam, answer: Answer) -> (r: Result<(), ApiError>)
    requires
        old(state).wf(),
    ensures
        final(state).wf(),
        final(state)@.questions == old(state)@.questions,
        final(state)@.accounts == old(state)@.accounts,
        param.id is None ==> r == Err::<(), ApiError>(ApiError::MissingParameters),
        param.id matches Some(id) ==> {
            &&& r is Ok <==> has_answer(old(state)@.answers, id as int)
            &&& r is Ok ==> final(state)@.answers == answers_with_content(
                old(state)@.answers,
                id as int,
                answer@.content,
            )
            &&& r is Err ==> r == Err::<(), ApiError>(ApiError::AnswerNotFound)
        },
        r is Err ==> final(state)@ == old(state)@,
{
    match param.id {
        None => Err(ApiError::MissingParameters),
        Some(id) => state.update_answer(&QuestionId(id), answer),
    }
}

/// The account that the request names by e-mail address.
pub fn get_account(state: &AppState, info: &UserAccountInfo) -> (r: Result<Account, ApiError>)
    ensures
        info.email is None ==> r == Err::<Account, ApiError>(ApiError::MissingParameters),
        info.email matches Some(email) ==> {
            &&& r is Ok <==> has_email(state@.accounts, email@)
            &&& r matches Ok(a) ==> exists|i: int|
                0 <= i < state@.accounts.len() && (#[trigger] state@.accounts[i]).email == email@
                    && a@ == state@.accounts[i]
            &&& r is Err ==> r == Err::<Account, ApiError>(ApiError::AccountNotFound)
        },
{
    match &info.email {
        None => Err(ApiError::MissingParameters),
        Some(email) => state.get_account(email.as_str()),
    }
}

/// Removes the account that the request names by e-mail address.
pub fn delete_account(state: &mut AppState, info: &UserAccountInfo) -> (r: Result<(), ApiError>)
    requires
        old(state).wf(),
    ensures
        final(state).wf(),
        final(state)@.questions == old(state)@.questions,
        final(state)@.answers == old(state)@.answers,
        info.email is None ==> r == Err::<(), ApiError>(ApiError::MissingParameters),
        info.email matches Some(email) ==> {
            &&& r is Ok <==> has_email(old(state)@.accounts, email@)
            &&& r is Ok ==> exists|i: int|
                0 <= i < old(state)@.accounts.len() && (#[trigger] old(state)@.accounts[i]).email
                    == email@ && final(state)@.accounts == old(state)@.accounts.remove(i)
            &&& r is Err ==> r == Err::<(), ApiError>(ApiError::AccountNotFound)
        },
        r is Err ==> final(state)@ == old(state)@,
{
    match &info.email {
        None => Err(ApiError::MissingParameters),
        Some(email) => state.delete_account(email.as_str()),
    }
}

/// Gives the account that the request names by e-mail address the e-mail
/// address and password of `account`.
pub fn put_account(state: &mut AppState, info: &UserAccountInfo, account: Account) -> (r: Result<
    (),
    ApiError,
>)
    requires
        old(state).wf(),
    ensures
        final(state).wf(),
        final(state)@.questions == old(state)@.questions,
        final(state)@.answers == old(state)@.answers,
        info.email is None ==> r == Err::<(), ApiError>(ApiError::MissingParameters),
        info.email matches Some(email) ==> {
            &&& !has_email(old(state)@.accounts, email@) ==> r == Err::<(), ApiError>(
                ApiError::AccountNotFound,
            )
            &&& r is Ok <==> has_email(old(state)@.accounts, email@) && (account.email@ == email@
                || !has_email(old(state)@.accounts, account.email@))
            &&& has_email(old(state)@.accounts, email@) && !(r is Ok) ==> r == Err::<(), ApiError>(
                ApiError::DuplicateIdentifier,
            )
            &&& r is Ok ==> exists|i: int|
                0 <= i < old(state)@.accounts.len() && (#[trigger] old(state)@.accounts[i]).email
                    == email@ && final(state)@.accounts == old(state)@.accounts.update(
                    i,
                    AccountView {
                        id: old(state)@.accounts[i].id,
                        email: account.email@,
                        password: account.password@,
                    },
                )
        },
        r is Err ==> final(state)@ == old(state)@,
{
    match &info.email {
        None => Err(ApiError::MissingParameters),
        Some(email) => state.update_account(email.as_str(), account),
    }
}

} // verus!
