use questions::api::{
    delete_account, delete_answer, delete_question, get_account, get_answers, get_question,
    get_questions, post_answer, put_account, put_answer, put_question, ApiError, IdParam,
    Pagination, UserAccountInfo,
};
use questions::database::{Account, AccountId, Answer, AppState};
use questions::question::{Question, QuestionId, UpdateQuestion};

fn store_with(ids: &[i32]) -> AppState {
    let mut state = AppState::new();
    for id in ids {
        state
            .add_question(Question {
                id: QuestionId(*id),
                title: format!("title {}", id),
                content: format!("content {}", id),
                tags: None,
            })
            .unwrap();
    }
    state
}

#[test]
fn error_status_and_messages() {
    let cases = [
        (ApiError::MissingParameters, 400, "Missing parameter"),
        (ApiError::InvalidIdentifier, 400, "Invalid identifier"),
        (ApiError::DuplicateIdentifier, 409, "Duplicate identifier"),
        (ApiError::QuestionNotFound, 404, "Question not found"),
        (ApiError::AccountNotFound, 404, "Account not found"),
        (ApiError::AnswerNotFound, 404, "Answer not found"),
    ];
    for (e, status, text) in cases {
        assert_eq!(e.status_code(), status);
        assert_eq!(e.message(), text);
        assert_eq!(e.body(), text);
    }
    let db = ApiError::DatabaseError("connection lost".to_string());
    assert_eq!(db.status_code(), 500);
    assert_eq!(db.message(), "Database error: connection lost");
    assert_eq!(db.body(), "connection lost");
}

#[test]
fn questions_page_needs_both_bounds() {
    let state = store_with(&[1, 2, 3, 4]);
    let all = get_questions(&state, &Pagination { start: None, end: None }).unwrap();
    assert_eq!(all.len(), 4);
    let some =
        get_questions(&state, &Pagination { start: Some(QuestionId(2)), end: Some(QuestionId(3)) })
            .unwrap();
    assert_eq!(some.iter().map(|q| q.id.0).collect::<Vec<_>>(), vec![2, 3]);
    assert_eq!(
        get_questions(&state, &Pagination { start: Some(QuestionId(2)), end: None }).unwrap_err(),
        ApiError::MissingParameters
    );
    assert_eq!(
        get_questions(&state, &Pagination { start: None, end: Some(QuestionId(2)) }).unwrap_err(),
        ApiError::MissingParameters
    );
}

#[test]
fn pagination_from_text() {
    let p = Pagination::parse(Some("2".to_string()), Some("+10".to_string())).unwrap();
    assert_eq!(p.start, Some(QuestionId(2)));
    assert_eq!(p.end, Some(QuestionId(10)));
    let open = Pagination::parse(None, Some("4".to_string())).unwrap();
    assert_eq!(open.start, None);
    assert_eq!(open.end, Some(QuestionId(4)));
    assert_eq!(
        Pagination::parse(Some("two".to_string()), None).unwrap_err(),
        ApiError::InvalidIdentifier
    );
    assert_eq!(
        Pagination::parse(Some("1".to_string()), Some("-3".to_string())).unwrap_err(),
        ApiError::InvalidIdentifier
    );
}

#[test]
fn single_question_request() {
    let state = store_with(&[5]);
    assert_eq!(get_question(&state, &IdParam { id: Some(5) }).unwrap().title, "title 5");
    assert_eq!(
        get_question(&state, &IdParam { id: Some(6) }).unwrap_err(),
        ApiError::QuestionNotFound
    );
    assert_eq!(get_question(&state, &IdParam { id: None }).unwrap_err(), ApiError::MissingParameters);
}

fn update(id: Option<i32>, title: &str) -> UpdateQuestion {
    UpdateQuestion {
        id: id.map(QuestionId),
        title: title.to_string(),
        content: "changed".to_string(),
        tags: Some(vec!["t".to_string()]),
    }
}

#[test]
fn put_question_picks_identifier() {
    let mut state = store_with(&[1, 2]);
    assert!(put_question(&mut state, &IdParam { id: Some(1) }, update(Some(2), "by query")).is_ok());
    assert_eq!(state.get_question(&QuestionId(1)).unwrap().title, "by query");
    assert_eq!(state.get_question(&QuestionId(2)).unwrap().title, "title 2");
    assert!(put_question(&mut state, &IdParam { id: None }, update(Some(2), "by body")).is_ok());
    let two = state.get_question(&QuestionId(2)).unwrap();
    assert_eq!(two.title, "by body");
    assert_eq!(two.content, "changed");
    assert_eq!(two.tags, Some(vec!["t".to_string()]));
    assert_eq!(
        put_question(&mut state, &IdParam { id: None }, update(None, "x")).unwrap_err(),
        ApiError::MissingParameters
    );
    assert_eq!(
        put_question(&mut state, &IdParam { id: Some(9) }, update(None, "x")).unwrap_err(),
        ApiError::QuestionNotFound
    );
}

#[test]
fn delete_question_request() {
    let mut state = store_with(&[1]);
    assert_eq!(
        delete_question(&mut state, &IdParam { id: None }).unwrap_err(),
        ApiError::MissingParameters
    );
    assert!(delete_question(&mut state, &IdParam { id: Some(1) }).is_ok());
    assert_eq!(
        delete_question(&mut state, &IdParam { id: Some(1) }).unwrap_err(),
        ApiError::QuestionNotFound
    );
}

#[test]
fn answer_requests() {
    let mut state = store_with(&[1]);
    let orphan = Answer { content: "lost".to_string(), question_id: QuestionId(2) };
    assert_eq!(post_answer(&mut state, orphan).unwrap_err(), ApiError::QuestionNotFound);
    let answer = Answer { content: "first".to_string(), question_id: QuestionId(1) };
    assert!(post_answer(&mut state, answer).is_ok());
    assert_eq!(get_answers(&state, &IdParam { id: Some(1) }).unwrap()[0].content, "first");
    assert!(get_answers(&state, &IdParam { id: Some(2) }).unwrap().is_empty());
    assert_eq!(get_answers(&state, &IdParam { id: None }).unwrap_err(), ApiError::MissingParameters);

    let changed = Answer { content: "second".to_string(), question_id: QuestionId(1) };
    assert!(put_answer(&mut state, &IdParam { id: Some(1) }, changed).is_ok());
    assert_eq!(get_answers(&state, &IdParam { id: Some(1) }).unwrap()[0].content, "second");
    let none = Answer { content: "x".to_string(), question_id: QuestionId(1) };
    assert_eq!(
        put_answer(&mut state, &IdParam { id: None }, none).unwrap_err(),
        ApiError::MissingParameters
    );

    assert_eq!(
        delete_answer(&mut state, &IdParam { id: None }).unwrap_err(),
        ApiError::MissingParameters
    );
    assert!(delete_answer(&mut state, &IdParam { id: Some(1) }).is_ok());
    assert_eq!(
        delete_answer(&mut state, &IdParam { id: Some(1) }).unwrap_err(),
        ApiError::AnswerNotFound
    );
}

fn info(email: Option<&str>) -> UserAccountInfo {
    UserAccountInfo { email: email.map(|e| e.to_string()), password: None }
}

#[test]
fn account_requests() {
    let mut state = AppState::new();
    let acc = Account { id: AccountId(1), email: "a@b.c".to_string(), password: "p".to_string() };
    state.add_account(acc).unwrap();
    assert_eq!(get_account(&state, &info(None)).unwrap_err(), ApiError::MissingParameters);
    assert_eq!(get_account(&state, &info(Some("a@b.c"))).unwrap().id, AccountId(1));
    assert_eq!(get_account(&state, &info(Some("x@b.c"))).unwrap_err(), ApiError::AccountNotFound);

    let new = Account { id: AccountId(1), email: "a@b.c".to_string(), password: "q".to_string() };
    assert!(put_account(&mut state, &info(Some("a@b.c")), new).is_ok());
    assert_eq!(state.get_account("a@b.c").unwrap().password, "q");
    let other = Account { id: AccountId(1), email: "a@b.c".to_string(), password: "r".to_string() };
    assert_eq!(put_account(&mut state, &info(None), other).unwrap_err(), ApiError::MissingParameters);

    assert_eq!(delete_account(&mut state, &info(None)).unwrap_err(), ApiError::MissingParameters);
    assert!(delete_account(&mut state, &info(Some("a@b.c"))).is_ok());
    assert_eq!(
        delete_account(&mut state, &info(Some("a@b.c"))).unwrap_err(),
        ApiError::AccountNotFound
    );
}
