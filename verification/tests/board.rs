use msgboard::attachment::{AttachmentRejected, ContentType, Upload};
use msgboard::board::{
    create_reply, create_reply_at, create_thread, draft_thread, get_thread, list_threads_page,
    next_page, open_thread, previous_page, BoardError, DEFAULT_PAGE_SIZE,
};
use msgboard::post::Post;
use msgboard::store::PostStore;

fn start(store: &mut PostStore, content: &str, label: &str, now: u64) -> Post {
    let draft = draft_thread(content, None, label.to_string(), now).unwrap();
    create_thread(store, draft).unwrap()
}

fn png(size: u64) -> Upload {
    Upload {
        file_name: "cat.png".to_string(),
        size,
        content_type: Some(ContentType::new("image", "png")),
    }
}

#[test]
fn new_thread_is_a_root_with_a_five_character_label() {
    let mut store = PostStore::new();
    let draft = open_thread("hello", None).unwrap();
    let label = draft.display_id().to_string();
    let stamped = draft.timestamp();
    let root = create_thread(&mut store, draft).unwrap();
    assert_eq!(root.id, 1);
    assert_eq!(root.content, "hello");
    assert_eq!(root.parent_id, None);
    assert_eq!(root.reply_sequence, None);
    assert_eq!(root.display_id, Some(label.clone()));
    assert_eq!(label.chars().count(), 5);
    assert!(label.chars().all(|c| c.is_ascii_alphanumeric()));
    assert_eq!(root.timestamp, stamped);
    assert_eq!(root.attachment_path, None);
    assert!(root.is_root());
    assert!(!root.is_reply());
    assert_eq!(store.len(), 1);
    assert_eq!(store.posts()[0], root);
}

#[test]
fn drafted_thread_keeps_label_and_time() {
    let mut store = PostStore::new();
    let root = start(&mut store, "first", "Ab3dE", 1_700_000_000);
    assert_eq!(root.display_id.as_deref(), Some("Ab3dE"));
    assert_eq!(root.timestamp, 1_700_000_000);
    let again = start(&mut store, "second", "Ab3dE", 1_700_000_001);
    assert_eq!(again.id, 2);
    assert_eq!(again.display_id.as_deref(), Some("Ab3dE"));
}

#[test]
fn blank_thread_is_refused() {
    assert!(matches!(open_thread("", None), Err(BoardError::ValidationError)));
    assert!(matches!(open_thread(" \t\r\n", None), Err(BoardError::ValidationError)));
    assert!(matches!(
        draft_thread("\u{3000}\u{a0}", None, "abc12".to_string(), 5),
        Err(BoardError::ValidationError)
    ));
    assert!(open_thread(" x ", None).is_ok());
}

#[test]
fn accepted_upload_is_planned_under_the_label() {
    let upload = png(2048);
    let draft = draft_thread("with picture", Some(&upload), "abc12".to_string(), 9).unwrap();
    assert_eq!(draft.rejected(), None);
    let file = draft.attachment().unwrap();
    assert_eq!(file.file_name, "abc12.png");
    assert_eq!(file.path, "/static/uploads/abc12.png");
    let mut store = PostStore::new();
    let root = create_thread(&mut store, draft).unwrap();
    assert_eq!(root.attachment_path.as_deref(), Some("/static/uploads/abc12.png"));
}

#[test]
fn refused_upload_is_dropped_and_the_thread_kept() {
    let upload = Upload {
        file_name: "notes.pdf".to_string(),
        size: 10,
        content_type: Some(ContentType::new("application", "pdf")),
    };
    let draft = draft_thread("text only", Some(&upload), "abc12".to_string(), 9).unwrap();
    assert!(draft.attachment().is_none());
    assert_eq!(draft.rejected(), Some(AttachmentRejected::BadType));
    let big = png(21 * 1024 * 1024);
    let draft = draft_thread("text only", Some(&big), "abc12".to_string(), 9).unwrap();
    assert!(draft.attachment().is_none());
    assert_eq!(draft.rejected(), Some(AttachmentRejected::Oversize));
    let mut store = PostStore::new();
    let root = create_thread(&mut store, draft).unwrap();
    assert_eq!(root.attachment_path, None);
    assert_eq!(root.content, "text only");
}

#[test]
fn unreadable_upload_is_dropped_with_its_reason() {
    let upload = png(2048);
    let draft = draft_thread("p", Some(&upload), "abc12".to_string(), 9).unwrap();
    let draft = draft.attachment_unreadable();
    assert!(draft.attachment().is_none());
    assert_eq!(draft.rejected(), Some(AttachmentRejected::Unreadable));
    let plain = draft_thread("p", None, "abc12".to_string(), 9).unwrap().attachment_unreadable();
    assert!(plain.attachment().is_none());
    assert_eq!(plain.rejected(), None);
}

#[test]
fn replies_are_numbered_from_one_without_gaps() {
    let mut store = PostStore::new();
    let root = start(&mut store, "root", "abc12", 100);
    let other = start(&mut store, "other", "abc13", 100);
    for n in 1..=20u64 {
        let reply = create_reply_at(&mut store, root.id, "again", 100 + n).unwrap();
        assert_eq!(reply.reply_sequence, Some(n));
        assert_eq!(reply.parent_id, Some(root.id));
        assert_eq!(reply.display_id, None);
        assert_eq!(reply.attachment_path, None);
        assert_eq!(reply.id, 2 + 2 * n - 1);
        let aside = create_reply_at(&mut store, other.id, "aside", 100 + n).unwrap();
        assert_eq!(aside.reply_sequence, Some(n));
    }
    assert_eq!(store.count_replies(root.id), 20);
    assert_eq!(store.next_reply_sequence(root.id), 21);
    assert_eq!(store.next_reply_sequence(999), 1);
}

#[test]
fn thread_lists_replies_latest_first() {
    let mut store = PostStore::new();
    let root = start(&mut store, "hello", "abc12", 10);
    create_reply_at(&mut store, root.id, "r1", 11).unwrap();
    create_reply_at(&mut store, root.id, "r2", 12).unwrap();
    let thread = get_thread(&store, root.id).unwrap();
    assert_eq!(thread.root.content, "hello");
    let bodies: Vec<&str> = thread.replies.iter().map(|r| r.content.as_str()).collect();
    assert_eq!(bodies, vec!["r2", "r1"]);
    let numbers: Vec<Option<u64>> = thread.replies.iter().map(|r| r.reply_sequence).collect();
    assert_eq!(numbers, vec![Some(2), Some(1)]);
    let page = list_threads_page(&store, 1, DEFAULT_PAGE_SIZE);
    assert_eq!(page.len(), 1);
    assert_eq!(page[0].root.id, root.id);
    assert_eq!(page[0].reply_count, 2);
}

#[test]
fn example_thread_with_two_replies() {
    let mut store = PostStore::new();
    let noise = start(&mut store, "older", "zzzzz", 5);
    let root = create_thread(&mut store, open_thread("hello", None).unwrap()).unwrap();
    let first = create_reply(&mut store, root.id, "r1").unwrap();
    let second = create_reply(&mut store, root.id, "r2").unwrap();
    assert_eq!(first.reply_sequence, Some(1));
    assert_eq!(second.reply_sequence, Some(2));
    let thread = get_thread(&store, root.id).unwrap();
    assert_eq!(thread.replies.len(), 2);
    assert_eq!(thread.replies[0].content, "r2");
    assert_eq!(thread.replies[0].reply_sequence, Some(2));
    assert_eq!(thread.replies[1].content, "r1");
    assert_eq!(thread.replies[1].reply_sequence, Some(1));
    let page = list_threads_page(&store, 1, 10);
    assert_eq!(page.len(), 2);
    assert_eq!(page[0].root.id, root.id);
    assert_eq!(page[0].reply_count, 2);
    assert_eq!(page[1].root.id, noise.id);
    assert_eq!(page[1].reply_count, 0);
}

#[test]
fn strictly_descending_sequences_in_a_long_thread() {
    let mut store = PostStore::new();
    let root = start(&mut store, "root", "abc12", 1);
    for n in 0..50u64 {
        create_reply_at(&mut store, root.id, "x", 2 + n).unwrap();
    }
    let thread = get_thread(&store, root.id).unwrap();
    assert_eq!(thread.replies.len(), 50);
    for pair in thread.replies.windows(2) {
        assert!(pair[0].reply_sequence.unwrap() > pair[1].reply_sequence.unwrap());
    }
    assert_eq!(thread.replies[0].reply_sequence, Some(50));
    assert_eq!(thread.replies[49].reply_sequence, Some(1));
}

#[test]
fn reply_bumps_its_root_to_the_head_of_the_feed() {
    let mut store = PostStore::new();
    let a = start(&mut store, "a", "aaaaa", 10);
    let b = start(&mut store, "b", "bbbbb", 20);
    let c = start(&mut store, "c", "ccccc", 30);
    let order: Vec<u64> = list_threads_page(&store, 1, 10).iter().map(|s| s.root.id).collect();
    assert_eq!(order, vec![c.id, b.id, a.id]);
    let reply = create_reply_at(&mut store, a.id, "wake up", 40).unwrap();
    assert_eq!(reply.timestamp, 40);
    let page = list_threads_page(&store, 1, 10);
    let order: Vec<u64> = page.iter().map(|s| s.root.id).collect();
    assert_eq!(order, vec![a.id, c.id, b.id]);
    assert_eq!(page[0].root.timestamp, 40);
    assert_eq!(page[0].reply_count, 1);
    assert_eq!(get_thread(&store, a.id).unwrap().root.timestamp, 40);
    assert_eq!(get_thread(&store, a.id).unwrap().replies[0].timestamp, 40);
    create_reply_at(&mut store, b.id, "late", 41).unwrap();
    let thread = get_thread(&store, a.id).unwrap();
    assert_eq!(thread.root.timestamp, 40);
    assert_eq!(thread.replies[0].timestamp, 40);
    let order: Vec<u64> = list_threads_page(&store, 1, 10).iter().map(|s| s.root.id).collect();
    assert_eq!(order, vec![b.id, a.id, c.id]);
}

#[test]
fn equal_timestamps_keep_the_order_of_insertion() {
    let mut store = PostStore::new();
    let a = start(&mut store, "a", "aaaaa", 7);
    let b = start(&mut store, "b", "bbbbb", 7);
    let c = start(&mut store, "c", "ccccc", 7);
    let order: Vec<u64> = list_threads_page(&store, 1, 10).iter().map(|s| s.root.id).collect();
    assert_eq!(order, vec![a.id, b.id, c.id]);
    create_reply_at(&mut store, c.id, "same second", 7).unwrap();
    let order: Vec<u64> = list_threads_page(&store, 1, 10).iter().map(|s| s.root.id).collect();
    assert_eq!(order, vec![a.id, b.id, c.id]);
    create_reply_at(&mut store, b.id, "earlier clock", 3).unwrap();
    let order: Vec<u64> = list_threads_page(&store, 1, 10).iter().map(|s| s.root.id).collect();
    assert_eq!(order, vec![a.id, c.id, b.id]);
}

#[test]
fn pages_cut_the_feed_into_runs() {
    let mut store = PostStore::new();
    for n in 0..25u64 {
        start(&mut store, "t", "abc12", 1000 + n);
    }
    create_reply_at(&mut store, 5, "r", 1003).unwrap();
    let whole: Vec<u64> = list_threads_page(&store, 1, 100).iter().map(|s| s.root.id).collect();
    assert_eq!(whole.len(), 25);
    assert_eq!(whole[0], 25);
    assert_eq!(whole[24], 1);
    for page_number in 1..=4u64 {
        let page = list_threads_page(&store, page_number, 10);
        let expected: Vec<u64> =
            whole.iter().copied().skip(((page_number - 1) * 10) as usize).take(10).collect();
        let got: Vec<u64> = page.iter().map(|s| s.root.id).collect();
        assert_eq!(got, expected);
        assert!(page.len() <= 10);
    }
    assert_eq!(list_threads_page(&store, 3, 10).len(), 5);
    assert_eq!(list_threads_page(&store, 4, 10).len(), 0);
    assert_eq!(list_threads_page(&store, 2, 7)[0].root.id, whole[7]);
    assert_eq!(list_threads_page(&store, 2, 7).len(), 7);
    assert_eq!(list_threads_page(&store, 1, 0).len(), 0);
    let first: Vec<u64> = list_threads_page(&store, 1, 10).iter().map(|s| s.root.id).collect();
    let zeroth: Vec<u64> = list_threads_page(&store, 0, 10).iter().map(|s| s.root.id).collect();
    assert_eq!(first, zeroth);
    assert_eq!(list_threads_page(&store, u64::MAX, 10).len(), 0);
    assert_eq!(list_threads_page(&store, u64::MAX, u64::MAX).len(), 0);
    assert_eq!(list_threads_page(&store, 1, u64::MAX).len(), 25);
    let counts: Vec<u64> = list_threads_page(&store, 1, 100).iter().map(|s| s.reply_count).collect();
    assert_eq!(counts.iter().sum::<u64>(), 1);
    let last: Vec<u64> = list_threads_page(&store, 3, 10).iter().map(|s| s.root.id).collect();
    assert_eq!(last, vec![4, 5, 3, 2, 1]);
    assert_eq!(list_threads_page(&store, 3, 10)[1].reply_count, 1);
}

#[test]
fn reply_to_unknown_parent_is_not_found() {
    let mut store = PostStore::new();
    assert!(matches!(create_reply_at(&mut store, 1, "r", 1), Err(BoardError::NotFound)));
    let root = start(&mut store, "root", "abc12", 1);
    assert!(matches!(create_reply_at(&mut store, 0, "r", 2), Err(BoardError::NotFound)));
    assert!(matches!(create_reply_at(&mut store, 7, "r", 2), Err(BoardError::NotFound)));
    assert!(matches!(create_reply(&mut store, 7, "r"), Err(BoardError::NotFound)));
    assert!(matches!(create_reply_at(&mut store, 7, "", 2), Err(BoardError::NotFound)));
    let reply = create_reply_at(&mut store, root.id, "r", 2).unwrap();
    assert!(matches!(create_reply_at(&mut store, reply.id, "rr", 3), Err(BoardError::NotFound)));
    assert_eq!(store.len(), 2);
}

#[test]
fn blank_reply_is_refused_and_nothing_changes() {
    let mut store = PostStore::new();
    let root = start(&mut store, "root", "abc12", 1);
    assert!(matches!(
        create_reply_at(&mut store, root.id, "  \n ", 50),
        Err(BoardError::ValidationError)
    ));
    assert!(matches!(create_reply(&mut store, root.id, ""), Err(BoardError::ValidationError)));
    assert_eq!(store.len(), 1);
    assert_eq!(store.posts()[0].timestamp, 1);
}

#[test]
fn unknown_thread_is_not_found() {
    let mut store = PostStore::new();
    assert!(matches!(get_thread(&store, 1), Err(BoardError::NotFound)));
    let root = start(&mut store, "root", "abc12", 1);
    let reply = create_reply_at(&mut store, root.id, "r", 2).unwrap();
    assert!(matches!(get_thread(&store, 3), Err(BoardError::NotFound)));
    assert!(matches!(get_thread(&store, reply.id), Err(BoardError::NotFound)));
    let thread = get_thread(&store, root.id).unwrap();
    assert_eq!(thread.root.id, root.id);
}

#[test]
fn full_store_takes_no_more_posts() {
    let rows = vec![Post {
        id: u64::MAX,
        content: "last".to_string(),
        parent_id: None,
        reply_sequence: None,
        display_id: Some("abc12".to_string()),
        timestamp: 1,
        attachment_path: None,
    }];
    let mut store = PostStore::load(rows).unwrap();
    let draft = draft_thread("one more", None, "abc13".to_string(), 2).unwrap();
    assert!(matches!(create_thread(&mut store, draft), Err(BoardError::StoreError)));
    assert!(matches!(
        create_reply_at(&mut store, u64::MAX, "one more", 2),
        Err(BoardError::StoreError)
    ));
    assert_eq!(store.len(), 1);
    assert_eq!(store.posts()[0].timestamp, 1);
}

#[test]
fn page_links() {
    assert_eq!(previous_page(0), None);
    assert_eq!(previous_page(1), None);
    assert_eq!(previous_page(2), Some(1));
    assert_eq!(previous_page(u64::MAX), Some(u64::MAX - 1));
    assert_eq!(next_page(0), Some(2));
    assert_eq!(next_page(1), Some(2));
    assert_eq!(next_page(41), Some(42));
    assert_eq!(next_page(u64::MAX), None);
    assert_eq!(DEFAULT_PAGE_SIZE, 10);
}
