use memo_desk::database_service::{
    CreateMemoRequest, DatabaseService, Memo, MemoError, UpdateMemoRequest,
};

fn create_test_db_service() -> DatabaseService {
    DatabaseService::new("test_memos.db".to_string())
}

fn request(title: &str, content: &str) -> CreateMemoRequest {
    CreateMemoRequest { title: title.to_string(), content: content.to_string() }
}

fn titles(memos: &[Memo]) -> Vec<String> {
    memos.iter().map(|m| m.title.clone()).collect()
}

#[test]
fn test_create_and_get_memo() {
    let mut service = create_test_db_service();

    let request = CreateMemoRequest {
        title: "テストメモ".to_string(),
        content: "これはテスト用のメモです".to_string(),
    };

    let created_memo = service.create_memo(request).unwrap();
    assert!(created_memo.id.is_some());
    assert_eq!(created_memo.title, "テストメモ");

    let retrieved_memo = service.get_memo_by_id(created_memo.id.unwrap()).unwrap();
    assert!(retrieved_memo.is_some());
    assert_eq!(retrieved_memo.unwrap().title, "テストメモ");
}

#[test]
fn test_update_memo() {
    let mut service = create_test_db_service();

    let create_request = CreateMemoRequest {
        title: "元のタイトル".to_string(),
        content: "元の内容".to_string(),
    };

    let created_memo = service.create_memo(create_request).unwrap();
    let memo_id = created_memo.id.unwrap();

    let update_request = UpdateMemoRequest {
        id: memo_id,
        title: "更新されたタイトル".to_string(),
        content: "更新された内容".to_string(),
    };

    let updated_memo = service.update_memo(update_request).unwrap();
    assert_eq!(updated_memo.title, "更新されたタイトル");
    assert_eq!(updated_memo.content, "更新された内容");
}

#[test]
fn test_delete_memo() {
    let mut service = create_test_db_service();

    let request = CreateMemoRequest {
        title: "削除テスト".to_string(),
        content: "このメモは削除されます".to_string(),
    };

    let created_memo = service.create_memo(request).unwrap();
    let memo_id = created_memo.id.unwrap();

    let deleted = service.delete_memo(memo_id).unwrap();
    assert!(deleted);

    let retrieved_memo = service.get_memo_by_id(memo_id).unwrap();
    assert!(retrieved_memo.is_none());
}

#[test]
fn test_search_memos() {
    let mut service = create_test_db_service();

    service
        .create_memo(CreateMemoRequest {
            title: "検索テスト1".to_string(),
            content: "キーワード含有".to_string(),
        })
        .unwrap();

    service
        .create_memo(CreateMemoRequest {
            title: "テスト2".to_string(),
            content: "別の内容".to_string(),
        })
        .unwrap();

    let results = service.search_memos("キーワード").unwrap();
    assert_eq!(results.len(), 1);
    assert_eq!(results[0].title, "検索テスト1");
}

#[test]
fn created_memo_reads_back_unchanged() {
    let mut service = create_test_db_service();
    let created = service.create_memo(request("title", "")).unwrap();
    assert_eq!(created.id, Some(1));
    assert_eq!(created.created_at, created.updated_at);
    let read = service.get_memo_by_id(1).unwrap().unwrap();
    assert_eq!(read.title, "title");
    assert_eq!(read.content, "");
    assert_eq!(read.created_at, read.updated_at);
    assert_eq!(read.created_at, created.created_at);
}

#[test]
fn update_keeps_creation_time() {
    let mut service = create_test_db_service();
    let m = service
        .create_memo_at(request("a", "b"), "2024-01-01T00:00:00+00:00".to_string())
        .unwrap();
    let u = service
        .update_memo_at(
            UpdateMemoRequest { id: m.id.unwrap(), title: "t2".to_string(), content: "c2".to_string() },
            "2024-01-02T00:00:00+00:00".to_string(),
        )
        .unwrap();
    assert_eq!(u.created_at, "2024-01-01T00:00:00+00:00");
    assert_eq!(u.updated_at, "2024-01-02T00:00:00+00:00");
    assert!(u.updated_at >= m.created_at);
    let read = service.get_memo_by_id(m.id.unwrap()).unwrap().unwrap();
    assert_eq!(read.title, "t2");
    assert_eq!(read.content, "c2");
    assert_eq!(read.created_at, m.created_at);
}

#[test]
fn second_delete_finds_nothing() {
    let mut service = create_test_db_service();
    let id = service.create_memo(request("x", "y")).unwrap().id.unwrap();
    assert!(service.delete_memo(id).unwrap());
    assert!(service.get_memo_by_id(id).unwrap().is_none());
    assert!(!service.delete_memo(id).unwrap());
}

#[test]
fn identifiers_are_not_reused_after_delete() {
    let mut service = create_test_db_service();
    let a = service.create_memo(request("a", "")).unwrap().id.unwrap();
    let b = service.create_memo(request("b", "")).unwrap().id.unwrap();
    assert!(service.delete_memo(b).unwrap());
    let c = service.create_memo(request("c", "")).unwrap().id.unwrap();
    assert_eq!((a, b, c), (1, 2, 3));
}

#[test]
fn search_finds_keyword_in_content() {
    let mut service = create_test_db_service();
    assert!(service.search_memos("XYZ").unwrap().is_empty());
    service.create_memo(request("Keyword Test", "contains XYZ")).unwrap();
    service.create_memo(request("Other", "unrelated")).unwrap();
    let results = service.search_memos("XYZ").unwrap();
    assert_eq!(titles(&results), vec!["Keyword Test"]);
}

#[test]
fn search_treats_query_as_like_pattern() {
    let mut service = create_test_db_service();
    service.create_memo_at(request("Report 100%", "a"), "1".to_string()).unwrap();
    service.create_memo_at(request("abc", "a_c"), "2".to_string()).unwrap();
    service.create_memo_at(request("Shopping", "milk"), "3".to_string()).unwrap();
    // ASCII letters match either case
    assert_eq!(titles(&service.search_memos("shop").unwrap()), vec!["Shopping"]);
    // `_` stands for any one character, `%` for any run
    assert_eq!(titles(&service.search_memos("a_c").unwrap()), vec!["abc"]);
    assert_eq!(titles(&service.search_memos("R%0").unwrap()), vec!["Report 100%"]);
    assert_eq!(titles(&service.search_memos("%").unwrap()), vec!["Shopping", "abc", "Report 100%"]);
    // the empty query matches every memo
    assert_eq!(service.search_memos("").unwrap().len(), 3);
    // letters outside ASCII only match themselves
    service.create_memo_at(request("Ärger", "x"), "4".to_string()).unwrap();
    assert!(service.search_memos("ärger").unwrap().is_empty());
    assert_eq!(titles(&service.search_memos("Är").unwrap()), vec!["Ärger"]);
}

#[test]
fn listing_puts_most_recently_updated_first() {
    let mut service = create_test_db_service();
    let a = service
        .create_memo_at(request("A", ""), "2024-01-01T00:00:00+00:00".to_string())
        .unwrap();
    service.create_memo_at(request("B", ""), "2024-01-02T00:00:00+00:00".to_string()).unwrap();
    assert_eq!(titles(&service.get_all_memos().unwrap()), vec!["B", "A"]);
    service
        .update_memo_at(
            UpdateMemoRequest { id: a.id.unwrap(), title: "A".to_string(), content: "new".to_string() },
            "2024-01-03T00:00:00+00:00".to_string(),
        )
        .unwrap();
    assert_eq!(titles(&service.get_all_memos().unwrap()), vec!["A", "B"]);
}

#[test]
fn listing_keeps_row_order_on_equal_times() {
    let mut service = create_test_db_service();
    for t in ["p", "q", "r"] {
        service.create_memo_at(request(t, ""), "same".to_string()).unwrap();
    }
    service.create_memo_at(request("s", ""), "older".to_string()).unwrap();
    assert_eq!(titles(&service.get_all_memos().unwrap()), vec!["p", "q", "r", "s"]);
}

#[test]
fn empty_store_lists_nothing() {
    let service = create_test_db_service();
    assert!(service.get_all_memos().unwrap().is_empty());
    assert!(service.get_memo_by_id(1).unwrap().is_none());
}

#[test]
fn update_of_missing_memo_fails_and_adds_nothing() {
    let mut service = create_test_db_service();
    let r = service.update_memo(UpdateMemoRequest {
        id: 9999,
        title: "x".to_string(),
        content: "y".to_string(),
    });
    assert!(matches!(r, Err(MemoError::NotFound)));
    assert_eq!(r.unwrap_err().message(), "指定されたIDのメモが見つかりません");
    assert!(service.get_all_memos().unwrap().is_empty());
    assert_eq!(service.get_database_stats(0).unwrap().total_memos, 0);
}

#[test]
fn stats_count_matches_listing() {
    let mut service = create_test_db_service();
    for i in 0..5 {
        service.create_memo(request(&format!("m{}", i), "")).unwrap();
    }
    assert!(service.delete_memo(2).unwrap());
    assert!(service.delete_memo(4).unwrap());
    let stats = service.get_database_stats(8192).unwrap();
    assert_eq!(stats.total_memos, 3);
    assert_eq!(stats.total_memos, service.get_all_memos().unwrap().len());
    assert_eq!(stats.database_path, "test_memos.db");
    assert_eq!(stats.database_size, 8192);
}

#[test]
fn store_reopens_from_stored_rows() {
    let row = |id: i32, t: &str| Memo {
        id: Some(id),
        title: t.to_string(),
        content: String::new(),
        created_at: "2024".to_string(),
        updated_at: "2024".to_string(),
    };
    let mut service = DatabaseService::from_rows("m.db".to_string(), vec![row(3, "c"), row(7, "g")], 9)
        .unwrap();
    assert_eq!(service.get_memo_by_id(7).unwrap().unwrap().title, "g");
    assert_eq!(service.create_memo(request("n", "")).unwrap().id, Some(9));
    assert_eq!(service.db_path(), "m.db");
}

#[test]
fn stored_rows_must_have_rising_identifiers() {
    let row = |id: Option<i32>| Memo {
        id,
        title: String::new(),
        content: String::new(),
        created_at: String::new(),
        updated_at: String::new(),
    };
    let bad = [
        (vec![row(Some(2)), row(Some(2))], 5),
        (vec![row(Some(3)), row(Some(1))], 5),
        (vec![row(None)], 5),
        (vec![row(Some(5))], 5),
        (vec![row(Some(0))], 5),
        (vec![], 0),
    ];
    for (rows, next) in bad {
        let r = DatabaseService::from_rows("m.db".to_string(), rows, next);
        assert!(matches!(r, Err(MemoError::Initialization(_))));
    }
}

#[test]
fn full_store_refuses_new_memos() {
    let mut service =
        DatabaseService::from_rows("m.db".to_string(), Vec::new(), i32::MAX as i64 + 1).unwrap();
    let r = service.create_memo(request("x", ""));
    assert!(matches!(r, Err(MemoError::Storage(_))));
    assert!(service.get_all_memos().unwrap().is_empty());
}

#[test]
fn update_then_create_keeps_both_readable() {
    let mut service = create_test_db_service();
    let a = service.create_memo(request("A", "a")).unwrap();
    let b = service.create_memo(request("B", "b")).unwrap();
    let u = service
        .update_memo(UpdateMemoRequest { id: a.id.unwrap(), title: "A2".to_string(), content: "a2".to_string() })
        .unwrap();
    assert_eq!(u.created_at, a.created_at);
    assert!(u.updated_at >= a.created_at);
    assert_eq!(service.get_memo_by_id(b.id.unwrap()).unwrap().unwrap().title, "B");
    assert_eq!(service.get_memo_by_id(a.id.unwrap()).unwrap().unwrap().title, "A2");
}

#[test]
fn clock_stamps_are_rfc3339_utc() {
    let mut service = create_test_db_service();
    let m = service.create_memo(request("t", "c")).unwrap();
    let t = m.created_at;
    assert!(t.len() >= 25);
    assert_eq!(&t[4..5], "-");
    assert_eq!(&t[10..11], "T");
    assert!(t.ends_with("+00:00"));
}
