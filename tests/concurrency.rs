use std::sync::Arc;

use questions::database::AppState;
use questions::question::{Question, QuestionId};
use tokio::sync::RwLock;

#[test]
fn concurrent_inserts_all_kept() {
    let runtime = tokio::runtime::Builder::new_multi_thread()
        .worker_threads(4)
        .build()
        .unwrap();
    runtime.block_on(async {
        let store = Arc::new(RwLock::new(AppState::new()));
        let mut tasks = Vec::new();
        for id in 0..64 {
            let store = store.clone();
            tasks.push(tokio::spawn(async move {
                let q = Question {
                    id: QuestionId(id),
                    title: format!("title {}", id),
                    content: "c".to_string(),
                    tags: None,
                };
                store.write().await.add_question(q)
            }));
        }
        for task in tasks {
            assert!(task.await.unwrap().is_ok());
        }
        let all = store.read().await.get_all_questions();
        assert_eq!(all.len(), 64);
        let mut ids: Vec<i32> = all.iter().map(|q| q.id.0).collect();
        ids.sort();
        assert_eq!(ids, (0..64).collect::<Vec<i32>>());
    });
}
