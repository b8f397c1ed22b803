use questions::api::ApiError;
use questions::database::{Account, AccountId, Answer, AppState};
use questions::question::{Question, QuestionId};

fn question(id: i32, title: &str, tags: Option<Vec<&str>>) -> Question {
    Question {
        id: QuestionId(id),
        title: title.to_string(),
        content: format!("content of {}", title),
        tags: tags.map(|t| t.into_iter().map(|s| s.to_string()).collect()),
    }
}

fn ids(qs: &[Question]) -> Vec<i32> {
    qs.iter().map(|q| q.id.0).collect()
}

#[test]
fn rust_question_scenario() {
    let mut state = AppState::new();
    let q = Question {
        id: QuestionId(1),
        title: "What is Rust?".to_string(),
        content: "...".to_string(),
        tags: Some(vec!["rust".to_string()]),
    };
    assert!(state.add_question(q).is_ok());
    let one = state.list_range(QuestionId(1), QuestionId(1));
    assert_eq!(one.len(), 1);
    assert_eq!(one[0].id, QuestionId(1));
    assert_eq!(one[0].title, "What is Rust?");
    assert_eq!(one[0].content, "...");
    assert_eq!(one[0].tags, Some(vec!["rust".to_string()]));
    assert!(state.list_range(QuestionId(2), QuestionId(5)).is_empty());
    assert!(state.delete_question(&QuestionId(1)).is_ok());
    assert_eq!(state.get_question(&QuestionId(1)).unwrap_err(), ApiError::QuestionNotFound);
}

#[test]
fn get_after_insert_returns_record() {
    let mut state = AppState::new();
    state.add_question(question(7, "seven", Some(vec!["a", "b"]))).unwrap();
    let got = state.get_question(&QuestionId(7)).unwrap();
    assert_eq!(got.id, QuestionId(7));
    assert_eq!(got.title, "seven");
    assert_eq!(got.content, "content of seven");
    assert_eq!(got.tags, Some(vec!["a".to_string(), "b".to_string()]));
}

#[test]
fn insert_normalizes_tags() {
    let mut state = AppState::new();
    state.add_question(question(1, "empty", Some(vec![]))).unwrap();
    state.add_question(question(2, "repeated", Some(vec!["x", "y", "x", "y", "z"]))).unwrap();
    assert_eq!(state.get_question(&QuestionId(1)).unwrap().tags, None);
    assert_eq!(
        state.get_question(&QuestionId(2)).unwrap().tags,
        Some(vec!["x".to_string(), "y".to_string(), "z".to_string()])
    );
}

#[test]
fn insert_rejects_duplicate_and_negative_ids() {
    let mut state = AppState::new();
    state.add_question(question(3, "first", None)).unwrap();
    assert_eq!(
        state.add_question(question(3, "second", None)).unwrap_err(),
        ApiError::DuplicateIdentifier
    );
    assert_eq!(
        state.add_question(question(-1, "negative", None)).unwrap_err(),
        ApiError::InvalidIdentifier
    );
    let all = state.get_all_questions();
    assert_eq!(all.len(), 1);
    assert_eq!(all[0].title, "first");
}

#[test]
fn absent_identifier_fails_without_change() {
    let mut state = AppState::new();
    state.add_question(question(1, "one", None)).unwrap();
    assert_eq!(state.get_question(&QuestionId(9)).unwrap_err(), ApiError::QuestionNotFound);
    assert_eq!(
        state.update_question(&QuestionId(9), question(9, "nine", None)).unwrap_err(),
        ApiError::QuestionNotFound
    );
    assert_eq!(state.delete_question(&QuestionId(9)).unwrap_err(), ApiError::QuestionNotFound);
    let all = state.get_all_questions();
    assert_eq!(ids(&all), vec![1]);
    assert_eq!(all[0].title, "one");
}

#[test]
fn range_is_filter_of_all() {
    let mut state = AppState::new();
    for id in [5, 1, 12, 3, 8, 10] {
        state.add_question(question(id, "q", None)).unwrap();
    }
    let all = state.get_all_questions();
    let range = state.list_range(QuestionId(3), QuestionId(10));
    let expected: Vec<i32> = ids(&all).into_iter().filter(|id| (3..=10).contains(id)).collect();
    assert_eq!(ids(&range), expected);
    assert_eq!(ids(&range), vec![5, 3, 8, 10]);
    assert!(state.list_range(QuestionId(13), QuestionId(20)).is_empty());
}

#[test]
fn range_compares_numerically() {
    let mut state = AppState::new();
    for id in [2, 10, 100] {
        state.add_question(question(id, "q", None)).unwrap();
    }
    assert_eq!(ids(&state.list_range(QuestionId(2), QuestionId(10))), vec![2, 10]);
    assert_eq!(ids(&state.list_range(QuestionId(9), QuestionId(99))), vec![10]);
}

#[test]
fn range_ignores_insertion_order() {
    let mut first = AppState::new();
    let mut second = AppState::new();
    for id in [1, 2, 3, 4, 5] {
        first.add_question(question(id, "q", None)).unwrap();
    }
    for id in [5, 3, 1, 4, 2] {
        second.add_question(question(id, "q", None)).unwrap();
    }
    let mut a = ids(&first.list_range(QuestionId(2), QuestionId(4)));
    let mut b = ids(&second.list_range(QuestionId(2), QuestionId(4)));
    a.sort();
    b.sort();
    assert_eq!(a, vec![2, 3, 4]);
    assert_eq!(a, b);
}

#[test]
fn second_delete_fails() {
    let mut state = AppState::new();
    state.add_question(question(4, "four", None)).unwrap();
    assert!(state.delete_question(&QuestionId(4)).is_ok());
    assert_eq!(state.delete_question(&QuestionId(4)).unwrap_err(), ApiError::QuestionNotFound);
}

#[test]
fn distinct_inserts_all_kept() {
    let mut state = AppState::new();
    let order = [17, 3, 250, 0, 42, 9, 1000, 5];
    for id in order {
        assert!(state.add_question(question(id, "q", None)).is_ok());
    }
    let mut all = ids(&state.get_all_questions());
    assert_eq!(all.len(), order.len());
    all.sort();
    let mut expected = order.to_vec();
    expected.sort();
    assert_eq!(all, expected);
}

#[test]
fn update_replaces_whole_record() {
    let mut state = AppState::new();
    state.add_question(question(6, "old title", Some(vec!["old"]))).unwrap();
    let new = Question {
        id: QuestionId(99),
        title: "new title".to_string(),
        content: "new content".to_string(),
        tags: None,
    };
    assert!(state.update_question(&QuestionId(6), new).is_ok());
    let got = state.get_question(&QuestionId(6)).unwrap();
    assert_eq!(got.id, QuestionId(6));
    assert_eq!(got.title, "new title");
    assert_eq!(got.content, "new content");
    assert_eq!(got.tags, None);
    assert_eq!(state.get_question(&QuestionId(99)).unwrap_err(), ApiError::QuestionNotFound);
}

#[test]
fn answers_follow_their_question() {
    let mut state = AppState::new();
    state.add_answer(Answer { content: "a1".to_string(), question_id: QuestionId(1) });
    state.add_answer(Answer { content: "b1".to_string(), question_id: QuestionId(2) });
    state.add_answer(Answer { content: "a2".to_string(), question_id: QuestionId(1) });
    let of_one: Vec<String> =
        state.get_answers(&QuestionId(1)).into_iter().map(|a| a.content).collect();
    assert_eq!(of_one, vec!["a1", "a2"]);
    assert!(state.get_answers(&QuestionId(3)).is_empty());

    let replacement = Answer { content: "new".to_string(), question_id: QuestionId(7) };
    assert!(state.update_answer(&QuestionId(1), replacement).is_ok());
    let updated = state.get_answers(&QuestionId(1));
    assert_eq!(updated.len(), 2);
    assert!(updated.iter().all(|a| a.content == "new" && a.question_id == QuestionId(1)));
    assert_eq!(state.get_answers(&QuestionId(2))[0].content, "b1");

    assert!(state.delete_answer(&QuestionId(1)).is_ok());
    assert!(state.get_answers(&QuestionId(1)).is_empty());
    assert_eq!(state.get_answers(&QuestionId(2)).len(), 1);
    assert_eq!(state.delete_answer(&QuestionId(1)).unwrap_err(), ApiError::AnswerNotFound);
    let other = Answer { content: "x".to_string(), question_id: QuestionId(1) };
    assert_eq!(state.update_answer(&QuestionId(1), other).unwrap_err(), ApiError::AnswerNotFound);
}

#[test]
fn deleting_question_keeps_answers() {
    let mut state = AppState::new();
    state.add_question(question(1, "one", None)).unwrap();
    state.add_answer(Answer { content: "a".to_string(), question_id: QuestionId(1) });
    state.delete_question(&QuestionId(1)).unwrap();
    assert_eq!(state.get_answers(&QuestionId(1)).len(), 1);
}

fn account(id: i32, email: &str, password: &str) -> Account {
    Account { id: AccountId(id), email: email.to_string(), password: password.to_string() }
}

#[test]
fn accounts_by_email() {
    let mut state = AppState::new();
    assert!(state.add_account(account(1, "moes@pdx.edu", "hash1")).is_ok());
    assert!(state.add_account(account(2, "other@pdx.edu", "hash2")).is_ok());
    assert_eq!(
        state.add_account(account(1, "third@pdx.edu", "h")).unwrap_err(),
        ApiError::DuplicateIdentifier
    );
    assert_eq!(
        state.add_account(account(3, "moes@pdx.edu", "h")).unwrap_err(),
        ApiError::DuplicateIdentifier
    );
    assert_eq!(
        state.add_account(account(-2, "neg@pdx.edu", "h")).unwrap_err(),
        ApiError::InvalidIdentifier
    );

    let got = state.get_account("moes@pdx.edu").unwrap();
    assert_eq!(got.id, AccountId(1));
    assert_eq!(got.password, "hash1");
    assert_eq!(state.get_account("nobody@pdx.edu").unwrap_err(), ApiError::AccountNotFound);

    assert!(state.update_account("moes@pdx.edu", account(50, "new@pdx.edu", "hash3")).is_ok());
    assert_eq!(state.get_account("moes@pdx.edu").unwrap_err(), ApiError::AccountNotFound);
    let moved = state.get_account("new@pdx.edu").unwrap();
    assert_eq!(moved.id, AccountId(1));
    assert_eq!(moved.password, "hash3");
    assert_eq!(
        state.update_account("new@pdx.edu", account(1, "other@pdx.edu", "x")).unwrap_err(),
        ApiError::DuplicateIdentifier
    );
    assert!(state.update_account("new@pdx.edu", account(1, "new@pdx.edu", "hash4")).is_ok());
    assert_eq!(state.get_account("new@pdx.edu").unwrap().password, "hash4");
    assert_eq!(
        state.update_account("gone@pdx.edu", account(1, "g@pdx.edu", "x")).unwrap_err(),
        ApiError::AccountNotFound
    );

    assert!(state.delete_account("new@pdx.edu").is_ok());
    assert_eq!(state.delete_account("new@pdx.edu").unwrap_err(), ApiError::AccountNotFound);
    assert!(state.get_account("other@pdx.edu").is_ok());
}
