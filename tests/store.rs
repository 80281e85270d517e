use ski::error::Error;
use ski::model::{
    Issue, IssueCreate, IssueFilter, IssueState, IssueType, IssueUpdate, SortField, SortOrder,
    StateReason,
};
use ski::store::Store;

const T0: i64 = 1_700_000_000;

fn titled(title: &str) -> IssueCreate {
    IssueCreate {
        title: title.to_string(),
        ..Default::default()
    }
}

fn with_labels(title: &str, labels: &[&str]) -> IssueCreate {
    IssueCreate {
        title: title.to_string(),
        labels: labels.iter().map(|l| l.to_string()).collect(),
        ..Default::default()
    }
}

fn make(store: &mut Store, create: IssueCreate, now: i64) -> Issue {
    store.create_issue(&create, now).unwrap()
}

fn label(store: &mut Store, name: &str) {
    store.create_label(name, None, None).unwrap();
}

fn count_labels_of(store: &Store, issue_id: i64) -> usize {
    store.issue_labels.iter().filter(|p| p.0 == issue_id).count()
}

#[test]
fn create_issue_with_defaults() {
    let mut store = Store::new();
    let issue = make(&mut store, titled("Test issue"), T0);

    assert_eq!(issue.title, "Test issue");
    assert_eq!(issue.body, None);
    assert_eq!(issue.issue_type, IssueType::Task);
    assert_eq!(issue.state, IssueState::Open);
    assert!(issue.state_reason.is_none());
    assert!(issue.closed_at.is_none());
    assert!(issue.deleted_at.is_none());
}

#[test]
fn create_issue_with_all_fields() {
    let mut store = Store::new();
    let create = IssueCreate {
        title: "Bug report".to_string(),
        body: Some("This is the body".to_string()),
        issue_type: IssueType::Bug,
        labels: vec![],
    };
    let issue = make(&mut store, create, T0);
    assert_eq!(issue.title, "Bug report");
    assert_eq!(issue.body, Some("This is the body".to_string()));
    assert_eq!(issue.issue_type, IssueType::Bug);
}

#[test]
fn create_issue_assigns_ids_and_times() {
    let mut store = Store::new();
    let a = make(&mut store, titled("A"), T0);
    let b = make(&mut store, titled("B"), T0 + 5);
    assert_eq!(a.id, 1);
    assert_eq!(b.id, 2);
    assert_eq!(b.created_at, T0 + 5);
    assert_eq!(b.updated_at, T0 + 5);
}

#[test]
fn create_issue_with_labels() {
    let mut store = Store::new();
    store.create_label("bug", Some("Bug label"), None).unwrap();
    let issue = make(&mut store, with_labels("Issue with label", &["bug"]), T0);
    assert_eq!(issue.title, "Issue with label");
    assert_eq!(count_labels_of(&store, issue.id), 1);
}

#[test]
fn create_issue_with_nonexistent_label_fails() {
    let mut store = Store::new();
    let result = store.create_issue(&with_labels("Issue with bad label", &["nonexistent"]), T0);
    assert!(result.is_err());
    assert!(matches!(result.unwrap_err(), Error::LabelNotFound(_)));
    assert!(store.issues.is_empty());
}

#[test]
fn create_issue_error_suggests_label_create() {
    let mut store = Store::new();
    let result = store.create_issue(&with_labels("Issue", &["missing"]), T0);
    let err = result.unwrap_err();
    let msg = err.to_string();
    assert!(msg.contains("Label 'missing' not found"));
    assert!(msg.contains("skis label create missing"));
}

#[test]
fn get_existing_issue() {
    let mut store = Store::new();
    let created = make(&mut store, titled("Test"), T0);
    let fetched = store.get_issue(created.id);
    assert!(fetched.is_some());
    assert_eq!(fetched.unwrap().title, "Test");
}

#[test]
fn get_nonexistent_issue_returns_none() {
    let store = Store::new();
    assert!(store.get_issue(9999).is_none());
}

#[test]
fn get_deleted_issue_returns_issue() {
    let mut store = Store::new();
    let created = make(&mut store, titled("To delete"), T0);
    store.delete_issue(created.id, T0 + 1).unwrap();
    let fetched = store.get_issue(created.id);
    assert!(fetched.is_some());
    assert!(fetched.unwrap().deleted_at.is_some());
}

#[test]
fn list_with_default_filter_returns_all_states() {
    let mut store = Store::new();
    make(&mut store, titled("Open 1"), T0);
    make(&mut store, titled("Open 2"), T0 + 1);
    let closed = make(&mut store, titled("Closed"), T0 + 2);
    store.close_issue(closed.id, StateReason::Completed, T0 + 3).unwrap();
    let issues = store.list_issues(&IssueFilter::default());
    assert_eq!(issues.len(), 3);
}

#[test]
fn list_filter_by_state_open() {
    let mut store = Store::new();
    make(&mut store, titled("Open"), T0);
    let to_close = make(&mut store, titled("Closed"), T0 + 1);
    store.close_issue(to_close.id, StateReason::Completed, T0 + 2).unwrap();
    let filter = IssueFilter {
        state: Some(IssueState::Open),
        ..Default::default()
    };
    let issues = store.list_issues(&filter);
    assert_eq!(issues.len(), 1);
    assert_eq!(issues[0].title, "Open");
}

#[test]
fn list_filter_by_state_closed() {
    let mut store = Store::new();
    make(&mut store, titled("Open"), T0);
    let to_close = make(&mut store, titled("Closed"), T0 + 1);
    store.close_issue(to_close.id, StateReason::Completed, T0 + 2).unwrap();
    let filter = IssueFilter {
        state: Some(IssueState::Closed),
        ..Default::default()
    };
    let issues = store.list_issues(&filter);
    assert_eq!(issues.len(), 1);
    assert_eq!(issues[0].title, "Closed");
}

#[test]
fn list_filter_by_type() {
    let mut store = Store::new();
    let mut task = titled("Task");
    task.issue_type = IssueType::Task;
    make(&mut store, task, T0);
    let mut bug = titled("Bug");
    bug.issue_type = IssueType::Bug;
    make(&mut store, bug, T0 + 1);
    let filter = IssueFilter {
        issue_type: Some(IssueType::Bug),
        ..Default::default()
    };
    let issues = store.list_issues(&filter);
    assert_eq!(issues.len(), 1);
    assert_eq!(issues[0].title, "Bug");
}

#[test]
fn list_filter_by_single_label() {
    let mut store = Store::new();
    label(&mut store, "urgent");
    let labeled = make(&mut store, with_labels("Labeled", &["urgent"]), T0);
    make(&mut store, titled("Unlabeled"), T0 + 1);
    let filter = IssueFilter {
        labels: vec!["urgent".to_string()],
        ..Default::default()
    };
    let issues = store.list_issues(&filter);
    assert_eq!(issues.len(), 1);
    assert_eq!(issues[0].id, labeled.id);
}

#[test]
fn list_filter_by_multiple_labels_and_logic() {
    let mut store = Store::new();
    label(&mut store, "urgent");
    label(&mut store, "bug");
    make(&mut store, with_labels("Both labels", &["urgent", "bug"]), T0);
    make(&mut store, with_labels("One label", &["urgent"]), T0 + 1);
    let filter = IssueFilter {
        labels: vec!["urgent".to_string(), "bug".to_string()],
        ..Default::default()
    };
    let issues = store.list_issues(&filter);
    assert_eq!(issues.len(), 1);
    assert_eq!(issues[0].title, "Both labels");
}

#[test]
fn list_filter_labels_bug_and_feature() {
    // Only issues with both "bug" and "feature" pass; one with only "bug" is left out.
    let mut store = Store::new();
    label(&mut store, "bug");
    label(&mut store, "feature");
    let both = make(&mut store, with_labels("Both", &["bug", "feature"]), T0);
    make(&mut store, with_labels("Only bug", &["bug"]), T0 + 1);
    make(&mut store, with_labels("Only feature", &["feature"]), T0 + 2);
    let filter = IssueFilter {
        labels: vec!["bug".to_string(), "feature".to_string()],
        ..Default::default()
    };
    let issues = store.list_issues(&filter);
    assert_eq!(issues.len(), 1);
    assert_eq!(issues[0].id, both.id);
}

#[test]
fn list_filter_with_unknown_label_is_empty() {
    let mut store = Store::new();
    label(&mut store, "bug");
    make(&mut store, with_labels("Has bug", &["bug"]), T0);
    let filter = IssueFilter {
        labels: vec!["bug".to_string(), "ghost".to_string()],
        ..Default::default()
    };
    assert!(store.list_issues(&filter).is_empty());
}

#[test]
fn create_issue_with_duplicate_labels_is_idempotent() {
    let mut store = Store::new();
    label(&mut store, "bug");
    let issue = make(&mut store, with_labels("Duplicate labels", &["bug", "bug"]), T0);
    assert_eq!(count_labels_of(&store, issue.id), 1);
}

#[test]
fn create_issue_with_duplicate_labels_different_case() {
    let mut store = Store::new();
    label(&mut store, "Bug");
    let issue = make(&mut store, with_labels("Case duplicate", &["bug", "BUG", "Bug"]), T0);
    assert_eq!(count_labels_of(&store, issue.id), 1);
}

#[test]
fn create_issue_bug_bug_upper_gives_one_association() {
    let mut store = Store::new();
    label(&mut store, "bug");
    let issue = make(&mut store, with_labels("Three names", &["bug", "bug", "BUG"]), T0);
    assert_eq!(count_labels_of(&store, issue.id), 1);
    assert_eq!(store.get_issue_labels(issue.id).len(), 1);
}

#[test]
fn list_filter_with_duplicate_labels_case_insensitive() {
    let mut store = Store::new();
    label(&mut store, "bug");
    label(&mut store, "feature");
    make(&mut store, with_labels("Has both", &["bug", "feature"]), T0);
    let filter = IssueFilter {
        labels: vec!["bug".to_string(), "BUG".to_string(), "feature".to_string()],
        ..Default::default()
    };
    let issues = store.list_issues(&filter);
    assert_eq!(issues.len(), 1);
    assert_eq!(issues[0].title, "Has both");
}

#[test]
fn list_excludes_deleted_by_default() {
    let mut store = Store::new();
    make(&mut store, titled("Active"), T0);
    let to_delete = make(&mut store, titled("Deleted"), T0 + 1);
    store.delete_issue(to_delete.id, T0 + 2).unwrap();
    let issues = store.list_issues(&IssueFilter::default());
    assert_eq!(issues.len(), 1);
    assert_eq!(issues[0].title, "Active");
}

#[test]
fn list_includes_deleted_with_flag() {
    let mut store = Store::new();
    make(&mut store, titled("Active"), T0);
    let to_delete = make(&mut store, titled("Deleted"), T0 + 1);
    store.delete_issue(to_delete.id, T0 + 2).unwrap();
    let filter = IssueFilter {
        include_deleted: true,
        ..Default::default()
    };
    assert_eq!(store.list_issues(&filter).len(), 2);
}

#[test]
fn delete_then_restore_shows_again() {
    let mut store = Store::new();
    let issue = make(&mut store, titled("Coming back"), T0);
    store.delete_issue(issue.id, T0 + 1).unwrap();
    assert!(store.list_issues(&IssueFilter::default()).is_empty());
    store.restore_issue(issue.id, T0 + 2).unwrap();
    let issues = store.list_issues(&IssueFilter::default());
    assert_eq!(issues.len(), 1);
    assert_eq!(issues[0].id, issue.id);
}

#[test]
fn list_default_sort_updated_desc() {
    let mut store = Store::new();
    let first = make(&mut store, titled("First"), T0);
    let second = make(&mut store, titled("Second"), T0 + 1);
    store
        .update_issue(
            first.id,
            &IssueUpdate {
                title: Some("First Updated".to_string()),
                ..Default::default()
            },
            T0 + 2,
        )
        .unwrap();
    let issues = store.list_issues(&IssueFilter::default());
    assert_eq!(issues[0].title, "First Updated");
    assert_eq!(issues[1].id, second.id);
}

#[test]
fn list_sort_by_created_asc() {
    let mut store = Store::new();
    make(&mut store, titled("First"), T0);
    make(&mut store, titled("Second"), T0 + 1);
    let filter = IssueFilter {
        sort_by: SortField::Created,
        sort_order: SortOrder::Asc,
        ..Default::default()
    };
    let issues = store.list_issues(&filter);
    assert_eq!(issues[0].title, "First");
    assert_eq!(issues[1].title, "Second");
}

#[test]
fn list_ties_come_in_id_order() {
    let mut store = Store::new();
    for i in 1..=3 {
        make(&mut store, titled(&format!("Same time {}", i)), T0);
    }
    let ids: Vec<i64> = store.list_issues(&IssueFilter::default()).iter().map(|i| i.id).collect();
    assert_eq!(ids, vec![1, 2, 3]);
    let filter = IssueFilter {
        sort_by: SortField::Id,
        ..Default::default()
    };
    let ids: Vec<i64> = store.list_issues(&filter).iter().map(|i| i.id).collect();
    assert_eq!(ids, vec![3, 2, 1]);
}

#[test]
fn list_pagination_limit() {
    let mut store = Store::new();
    for i in 1..=5 {
        make(&mut store, titled(&format!("Issue {}", i)), T0 + i);
    }
    let filter = IssueFilter {
        limit: 2,
        ..Default::default()
    };
    assert_eq!(store.list_issues(&filter).len(), 2);
}

#[test]
fn list_pagination_offset() {
    let mut store = Store::new();
    for i in 1..=5 {
        make(&mut store, titled(&format!("Issue {}", i)), T0 + i);
    }
    let filter = IssueFilter {
        sort_by: SortField::Id,
        sort_order: SortOrder::Asc,
        limit: 2,
        offset: 2,
        ..Default::default()
    };
    let issues = store.list_issues(&filter);
    assert_eq!(issues.len(), 2);
    assert_eq!(issues[0].title, "Issue 3");
    assert_eq!(issues[1].title, "Issue 4");
}

#[test]
fn list_pagination_past_the_end() {
    let mut store = Store::new();
    for i in 1..=3 {
        make(&mut store, titled(&format!("Issue {}", i)), T0 + i);
    }
    let filter = IssueFilter {
        limit: usize::MAX,
        offset: 2,
        ..Default::default()
    };
    assert_eq!(store.list_issues(&filter).len(), 1);
    let filter = IssueFilter {
        offset: 7,
        ..Default::default()
    };
    assert!(store.list_issues(&filter).is_empty());
}

#[test]
fn close_issue_sets_fields() {
    let mut store = Store::new();
    let issue = make(&mut store, titled("To close"), T0);
    let closed = store.close_issue(issue.id, StateReason::Completed, T0 + 1).unwrap();
    assert_eq!(closed.state, IssueState::Closed);
    assert_eq!(closed.state_reason, Some(StateReason::Completed));
    assert!(closed.closed_at.is_some());
}

#[test]
fn close_issue_already_closed_errors() {
    let mut store = Store::new();
    let issue = make(&mut store, titled("To close"), T0);
    store.close_issue(issue.id, StateReason::Completed, T0 + 1).unwrap();
    let result = store.close_issue(issue.id, StateReason::NotPlanned, T0 + 2);
    assert!(result.is_err());
    assert!(matches!(
        result.unwrap_err(),
        Error::InvalidStateTransition(_, ref s) if s == "closed"
    ));
}

#[test]
fn close_with_comment_adds_both() {
    let mut store = Store::new();
    let issue = make(&mut store, titled("Done"), T0);
    store
        .close_issue_with_comment(issue.id, StateReason::Completed, Some("Fixed in main"), T0 + 1)
        .unwrap();
    let comments = store.get_comments(issue.id);
    assert_eq!(comments.len(), 1);
    assert_eq!(comments[0].body, "Fixed in main");
    assert_eq!(store.get_issue(issue.id).unwrap().state, IssueState::Closed);
    // A second close adds no comment either.
    assert!(store
        .close_issue_with_comment(issue.id, StateReason::Completed, Some("again"), T0 + 2)
        .is_err());
    assert_eq!(store.get_comments(issue.id).len(), 1);
}

#[test]
fn close_unknown_issue_errors() {
    let mut store = Store::new();
    let result = store.close_issue(5, StateReason::Completed, T0);
    assert!(matches!(result, Err(Error::IssueNotFound(5))));
}

#[test]
fn reopen_issue_clears_fields() {
    let mut store = Store::new();
    let issue = make(&mut store, titled("To reopen"), T0);
    store.close_issue(issue.id, StateReason::Completed, T0 + 1).unwrap();
    let reopened = store.reopen_issue(issue.id, T0 + 2).unwrap();
    assert_eq!(reopened.state, IssueState::Open);
    assert!(reopened.state_reason.is_none());
    assert!(reopened.closed_at.is_none());
}

#[test]
fn reopen_issue_already_open_errors() {
    let mut store = Store::new();
    let issue = make(&mut store, titled("Already open"), T0);
    let result = store.reopen_issue(issue.id, T0 + 1);
    assert!(result.is_err());
    assert!(matches!(
        result.unwrap_err(),
        Error::InvalidStateTransition(_, ref s) if s == "open"
    ));
}

#[test]
fn close_not_planned_then_reopen() {
    let mut store = Store::new();
    let create = IssueCreate {
        title: "T1".to_string(),
        issue_type: IssueType::Bug,
        ..Default::default()
    };
    let issue = make(&mut store, create, T0);
    let closed = store.close_issue(issue.id, StateReason::NotPlanned, T0 + 1).unwrap();
    assert_eq!(closed.state.as_str(), "closed");
    assert_eq!(closed.state_reason.unwrap().as_str(), "not_planned");
    assert_eq!(closed.closed_at, Some(T0 + 1));
    let reopened = store.reopen_issue(issue.id, T0 + 2).unwrap();
    assert_eq!(reopened.state.as_str(), "open");
    assert_eq!(reopened.state_reason, None);
    assert_eq!(reopened.closed_at, None);
    assert!(store.reopen_issue(issue.id, T0 + 3).is_err());
}

#[test]
fn updated_at_changes_on_close() {
    let mut store = Store::new();
    let issue = make(&mut store, titled("Test"), T0);
    let original_updated = issue.updated_at;
    let closed = store.close_issue(issue.id, StateReason::Completed, T0 + 10).unwrap();
    assert!(closed.updated_at >= original_updated);
    assert_eq!(closed.updated_at, T0 + 10);
}

#[test]
fn updated_at_changes_on_reopen() {
    let mut store = Store::new();
    let issue = make(&mut store, titled("Test"), T0);
    let closed = store.close_issue(issue.id, StateReason::Completed, T0 + 10).unwrap();
    let closed_updated = closed.updated_at;
    let reopened = store.reopen_issue(issue.id, T0 + 20).unwrap();
    assert!(reopened.updated_at >= closed_updated);
    assert_eq!(reopened.updated_at, T0 + 20);
}

#[test]
fn soft_delete_sets_deleted_at() {
    let mut store = Store::new();
    let issue = make(&mut store, titled("To delete"), T0);
    store.delete_issue(issue.id, T0 + 1).unwrap();
    let deleted = store.get_issue(issue.id).unwrap();
    assert!(deleted.deleted_at.is_some());
}

#[test]
fn restore_clears_deleted_at() {
    let mut store = Store::new();
    let issue = make(&mut store, titled("To restore"), T0);
    store.delete_issue(issue.id, T0 + 1).unwrap();
    let restored = store.restore_issue(issue.id, T0 + 2).unwrap();
    assert!(restored.deleted_at.is_none());
}

#[test]
fn delete_nonexistent_issue_errors() {
    let mut store = Store::new();
    let result = store.delete_issue(9999, T0);
    assert!(result.is_err());
    assert!(matches!(result.unwrap_err(), Error::IssueNotFound(9999)));
}

#[test]
fn update_issue_title_only() {
    let mut store = Store::new();
    let mut create = titled("Original");
    create.body = Some("Body".to_string());
    let issue = make(&mut store, create, T0);
    let updated = store
        .update_issue(
            issue.id,
            &IssueUpdate {
                title: Some("New Title".to_string()),
                ..Default::default()
            },
            T0 + 1,
        )
        .unwrap();
    assert_eq!(updated.title, "New Title");
    assert_eq!(updated.body, Some("Body".to_string()));
}

#[test]
fn update_issue_body_only() {
    let mut store = Store::new();
    let issue = make(&mut store, titled("Title"), T0);
    let updated = store
        .update_issue(
            issue.id,
            &IssueUpdate {
                body: Some("New body".to_string()),
                ..Default::default()
            },
            T0 + 1,
        )
        .unwrap();
    assert_eq!(updated.title, "Title");
    assert_eq!(updated.body, Some("New body".to_string()));
}

#[test]
fn update_issue_type_only() {
    let mut store = Store::new();
    let mut create = titled("Title");
    create.issue_type = IssueType::Task;
    let issue = make(&mut store, create, T0);
    let updated = store
        .update_issue(
            issue.id,
            &IssueUpdate {
                issue_type: Some(IssueType::Bug),
                ..Default::default()
            },
            T0 + 1,
        )
        .unwrap();
    assert_eq!(updated.issue_type, IssueType::Bug);
}

#[test]
fn update_issue_multiple_fields() {
    let mut store = Store::new();
    let issue = make(&mut store, titled("Old"), T0);
    let updated = store
        .update_issue(
            issue.id,
            &IssueUpdate {
                title: Some("New".to_string()),
                body: Some("Body".to_string()),
                issue_type: Some(IssueType::Epic),
            },
            T0 + 1,
        )
        .unwrap();
    assert_eq!(updated.title, "New");
    assert_eq!(updated.body, Some("Body".to_string()));
    assert_eq!(updated.issue_type, IssueType::Epic);
}

#[test]
fn update_issue_triggers_updated_at() {
    let mut store = Store::new();
    let issue = make(&mut store, titled("Original"), T0);
    let original_updated = issue.updated_at;
    let updated = store
        .update_issue(
            issue.id,
            &IssueUpdate {
                title: Some("Changed".to_string()),
                ..Default::default()
            },
            T0 + 10,
        )
        .unwrap();
    assert!(updated.updated_at >= original_updated);
    assert_eq!(updated.updated_at, T0 + 10);
}

#[test]
fn update_with_nothing_changes_nothing() {
    let mut store = Store::new();
    let mut create = titled("Keep");
    create.body = Some("As is".to_string());
    let issue = make(&mut store, create, T0);
    let same = store.update_issue(issue.id, &IssueUpdate::default(), T0 + 50).unwrap();
    assert_eq!(same.title, "Keep");
    assert_eq!(same.body, Some("As is".to_string()));
    assert_eq!(same.updated_at, T0);
    assert_eq!(store.get_issue(issue.id).unwrap().updated_at, T0);
}

#[test]
fn update_unknown_issue_errors() {
    let mut store = Store::new();
    let result = store.update_issue(3, &IssueUpdate::default(), T0);
    assert!(matches!(result, Err(Error::IssueNotFound(3))));
}

#[test]
fn add_comment_to_issue() {
    let mut store = Store::new();
    let issue = make(&mut store, titled("Test"), T0);
    let comment = store.add_comment(issue.id, "This is a comment", T0 + 1).unwrap();
    assert_eq!(comment.issue_id, issue.id);
    assert_eq!(comment.body, "This is a comment");
    assert!(comment.id > 0);
}

#[test]
fn get_comments_returns_in_order() {
    let mut store = Store::new();
    let issue = make(&mut store, titled("Test"), T0);
    store.add_comment(issue.id, "First", T0 + 10).unwrap();
    store.add_comment(issue.id, "Second", T0 + 20).unwrap();
    store.add_comment(issue.id, "Third", T0 + 30).unwrap();
    let comments = store.get_comments(issue.id);
    assert_eq!(comments.len(), 3);
    assert_eq!(comments[0].body, "First");
    assert_eq!(comments[1].body, "Second");
    assert_eq!(comments[2].body, "Third");
}

#[test]
fn add_comment_to_nonexistent_issue_errors() {
    let mut store = Store::new();
    assert!(store.add_comment(9999, "Comment", T0).is_err());
}

#[test]
fn update_and_delete_comment() {
    let mut store = Store::new();
    let issue = make(&mut store, titled("Test"), T0);
    let c = store.add_comment(issue.id, "Draft", T0 + 1).unwrap();
    let edited = store.update_comment(c.id, "Final", T0 + 2).unwrap();
    assert_eq!(edited.body, "Final");
    assert_eq!(edited.created_at, T0 + 1);
    assert_eq!(edited.updated_at, T0 + 2);
    store.delete_comment(c.id).unwrap();
    assert!(store.get_comments(issue.id).is_empty());
    assert!(matches!(store.delete_comment(c.id), Err(Error::CommentNotFound(_))));
    assert!(matches!(store.update_comment(c.id, "x", T0), Err(Error::CommentNotFound(_))));
}

#[test]
fn search_finds_title_match() {
    let mut store = Store::new();
    make(&mut store, titled("Login button broken"), T0);
    make(&mut store, titled("Update documentation"), T0 + 1);
    let results = store.search_issues("login", &IssueFilter::default());
    assert_eq!(results.len(), 1);
    assert!(results[0].title.contains("Login"));
}

#[test]
fn search_finds_body_match() {
    let mut store = Store::new();
    let mut create = titled("Bug report");
    create.body = Some("The authentication system fails".to_string());
    make(&mut store, create, T0);
    let results = store.search_issues("authentication", &IssueFilter::default());
    assert_eq!(results.len(), 1);
    assert_eq!(results[0].title, "Bug report");
}

#[test]
fn search_needs_every_word_as_a_whole_word() {
    let mut store = Store::new();
    let mut create = titled("Login page");
    create.body = Some("Crashes on submit".to_string());
    make(&mut store, create, T0);
    assert_eq!(store.search_issues("LOGIN crashes", &IssueFilter::default()).len(), 1);
    assert!(store.search_issues("login missing", &IssueFilter::default()).is_empty());
    assert!(store.search_issues("log", &IssueFilter::default()).is_empty());
    assert!(store.search_issues("  ", &IssueFilter::default()).is_empty());
}

#[test]
fn search_respects_state_filter() {
    let mut store = Store::new();
    let issue1 = make(&mut store, titled("Open searchable issue"), T0);
    let issue2 = make(&mut store, titled("Closed searchable issue"), T0 + 1);
    store.close_issue(issue2.id, StateReason::Completed, T0 + 2).unwrap();
    let open_filter = IssueFilter {
        state: Some(IssueState::Open),
        ..Default::default()
    };
    let results = store.search_issues("searchable", &open_filter);
    assert_eq!(results.len(), 1);
    assert_eq!(results[0].id, issue1.id);
}

#[test]
fn search_respects_label_filter() {
    let mut store = Store::new();
    label(&mut store, "urgent");
    let issue1 = make(&mut store, with_labels("Important task", &["urgent"]), T0);
    make(&mut store, titled("Important but not urgent"), T0 + 1);
    let filter = IssueFilter {
        labels: vec!["urgent".to_string()],
        ..Default::default()
    };
    let results = store.search_issues("important", &filter);
    assert_eq!(results.len(), 1);
    assert_eq!(results[0].id, issue1.id);
}

#[test]
fn link_is_bidirectional() {
    let mut store = Store::new();
    let issue1 = make(&mut store, titled("Issue 1"), T0);
    let issue2 = make(&mut store, titled("Issue 2"), T0 + 1);
    store.add_link(issue1.id, issue2.id, T0 + 2).unwrap();
    let links_from_1 = store.get_linked_issues(issue1.id);
    assert_eq!(links_from_1.len(), 1);
    assert_eq!(links_from_1[0], issue2.id);
    let links_from_2 = store.get_linked_issues(issue2.id);
    assert_eq!(links_from_2.len(), 1);
    assert_eq!(links_from_2[0], issue1.id);
}

#[test]
fn link_order_does_not_matter() {
    let mut store = Store::new();
    let issue1 = make(&mut store, titled("Issue 1"), T0);
    let issue2 = make(&mut store, titled("Issue 2"), T0 + 1);
    store.add_link(issue2.id, issue1.id, T0 + 2).unwrap();
    let links = store.get_linked_issues(issue1.id);
    assert_eq!(links.len(), 1);
    assert_eq!(links[0], issue2.id);
    assert_eq!(store.links[0].issue_a_id, issue1.id);
    assert_eq!(store.links[0].issue_b_id, issue2.id);
}

#[test]
fn duplicate_link_fails() {
    let mut store = Store::new();
    let issue1 = make(&mut store, titled("Issue 1"), T0);
    let issue2 = make(&mut store, titled("Issue 2"), T0 + 1);
    store.add_link(issue1.id, issue2.id, T0 + 2).unwrap();
    assert!(store.add_link(issue1.id, issue2.id, T0 + 3).is_err());
}

#[test]
fn duplicate_link_reversed_order_fails() {
    let mut store = Store::new();
    let issue1 = make(&mut store, titled("Issue 1"), T0);
    let issue2 = make(&mut store, titled("Issue 2"), T0 + 1);
    store.add_link(issue1.id, issue2.id, T0 + 2).unwrap();
    let result = store.add_link(issue2.id, issue1.id, T0 + 3);
    assert!(matches!(result, Err(Error::DuplicateLink(1, 2))));
}

#[test]
fn unlink_order_does_not_matter() {
    let mut store = Store::new();
    let issue1 = make(&mut store, titled("Issue 1"), T0);
    let issue2 = make(&mut store, titled("Issue 2"), T0 + 1);
    store.add_link(issue1.id, issue2.id, T0 + 2).unwrap();
    store.remove_link(issue2.id, issue1.id).unwrap();
    assert!(store.get_linked_issues(issue1.id).is_empty());
    // Removing a link that is not there succeeds too.
    assert!(store.remove_link(issue1.id, issue2.id).is_ok());
}

#[test]
fn self_link_fails() {
    let mut store = Store::new();
    let issue = make(&mut store, titled("Issue"), T0);
    assert!(store.add_link(issue.id, issue.id, T0 + 1).is_err());
    assert!(matches!(store.add_link(77, 77, T0 + 1), Err(Error::SelfLink)));
}

#[test]
fn link_to_unknown_issue_fails() {
    let mut store = Store::new();
    let issue = make(&mut store, titled("Issue"), T0);
    assert!(matches!(store.add_link(issue.id, 42, T0), Err(Error::IssueNotFound(42))));
}

#[test]
fn link_to_deleted_issue_allowed() {
    let mut store = Store::new();
    let issue1 = make(&mut store, titled("Issue 1"), T0);
    let issue2 = make(&mut store, titled("Issue 2"), T0 + 1);
    store.delete_issue(issue2.id, T0 + 2).unwrap();
    assert!(store.add_link(issue1.id, issue2.id, T0 + 3).is_ok());
}

#[test]
fn linked_issues_with_titles() {
    let mut store = Store::new();
    let issue1 = make(&mut store, titled("Issue 1"), T0);
    let issue2 = make(&mut store, titled("Issue 2"), T0 + 1);
    let issue3 = make(&mut store, titled("Issue 3"), T0 + 2);
    store.add_link(issue2.id, issue1.id, T0 + 3).unwrap();
    store.add_link(issue2.id, issue3.id, T0 + 4).unwrap();
    let refs = store.get_linked_issues_with_titles(issue2.id);
    assert_eq!(refs.len(), 2);
    assert_eq!(refs[0].id, issue1.id);
    assert_eq!(refs[0].title, "Issue 1");
    assert_eq!(refs[1].title, "Issue 3");
}

#[test]
fn create_label_with_all_fields() {
    let mut store = Store::new();
    let label = store.create_label("bug", Some("Bug reports"), Some("d73a4a")).unwrap();
    assert_eq!(label.name, "bug");
    assert_eq!(label.description, Some("Bug reports".to_string()));
    assert_eq!(label.color, Some("d73a4a".to_string()));
    assert!(label.id > 0);
}

#[test]
fn create_label_name_only() {
    let mut store = Store::new();
    let label = store.create_label("enhancement", None, None).unwrap();
    assert_eq!(label.name, "enhancement");
    assert_eq!(label.description, None);
    assert!(label.color.is_some());
    assert_eq!(label.color.as_ref().unwrap().len(), 6);
}

#[test]
fn create_label_without_color_gets_generated_one() {
    let mut store = Store::new();
    let label = store.create_label("Bug", None, None).unwrap();
    assert_eq!(label.color, Some(ski::color::generate_color("bug")));
}

#[test]
fn create_label_invalid_color_errors() {
    let mut store = Store::new();
    assert!(store.create_label("test", None, Some("invalid")).is_err());
    assert!(matches!(
        store.create_label("test", None, Some("#ff0000")),
        Err(Error::InvalidColor(_))
    ));
    assert!(store.labels.is_empty());
}

#[test]
fn create_label_duplicate_name_errors() {
    let mut store = Store::new();
    store.create_label("bug", None, None).unwrap();
    assert!(store.create_label("bug", None, None).is_err());
}

#[test]
fn create_label_duplicate_name_different_case_errors() {
    let mut store = Store::new();
    store.create_label("bug", None, None).unwrap();
    let result = store.create_label("BUG", None, None);
    assert!(matches!(result, Err(Error::LabelExists(_))));
}

#[test]
fn list_labels_returns_all() {
    let mut store = Store::new();
    label(&mut store, "bug");
    label(&mut store, "enhancement");
    label(&mut store, "docs");
    let labels = store.list_labels();
    assert_eq!(labels.len(), 3);
    let names: Vec<&str> = labels.iter().map(|l| l.name.as_str()).collect();
    assert!(names.contains(&"bug"));
    assert!(names.contains(&"enhancement"));
    assert!(names.contains(&"docs"));
}

#[test]
fn delete_label_by_name() {
    let mut store = Store::new();
    label(&mut store, "bug");
    store.delete_label("bug").unwrap();
    assert!(store.list_labels().is_empty());
}

#[test]
fn delete_label_case_insensitive() {
    let mut store = Store::new();
    label(&mut store, "bug");
    store.delete_label("BUG").unwrap();
    assert!(store.list_labels().is_empty());
}

#[test]
fn delete_label_nonexistent_errors() {
    let mut store = Store::new();
    assert!(store.delete_label("nonexistent").is_err());
}

#[test]
fn delete_label_removes_its_associations_only() {
    let mut store = Store::new();
    label(&mut store, "bug");
    label(&mut store, "urgent");
    let issue = make(&mut store, with_labels("Test", &["bug", "urgent"]), T0);
    store.delete_label("bug").unwrap();
    let labels = store.get_issue_labels(issue.id);
    assert_eq!(labels.len(), 1);
    assert_eq!(labels[0].name, "urgent");
    assert!(store.get_issue(issue.id).is_some());
}

#[test]
fn add_label_to_issue_test() {
    let mut store = Store::new();
    label(&mut store, "bug");
    let issue = make(&mut store, titled("Test"), T0);
    store.add_label_to_issue(issue.id, "bug").unwrap();
    let labels = store.get_issue_labels(issue.id);
    assert_eq!(labels.len(), 1);
    assert_eq!(labels[0].name, "bug");
}

#[test]
fn add_nonexistent_label_errors() {
    let mut store = Store::new();
    let issue = make(&mut store, titled("Test"), T0);
    assert!(store.add_label_to_issue(issue.id, "nonexistent").is_err());
}

#[test]
fn add_duplicate_label_is_idempotent() {
    let mut store = Store::new();
    label(&mut store, "bug");
    let issue = make(&mut store, titled("Test"), T0);
    store.add_label_to_issue(issue.id, "bug").unwrap();
    store.add_label_to_issue(issue.id, "BUG").unwrap();
    assert_eq!(store.get_issue_labels(issue.id).len(), 1);
}

#[test]
fn remove_label_from_issue_test() {
    let mut store = Store::new();
    label(&mut store, "bug");
    let issue = make(&mut store, titled("Test"), T0);
    store.add_label_to_issue(issue.id, "bug").unwrap();
    store.remove_label_from_issue(issue.id, "bug").unwrap();
    assert!(store.get_issue_labels(issue.id).is_empty());
}

#[test]
fn remove_nonexistent_label_is_idempotent() {
    let mut store = Store::new();
    let issue = make(&mut store, titled("Test"), T0);
    assert!(store.remove_label_from_issue(issue.id, "nonexistent").is_ok());
}

#[test]
fn get_issue_labels_returns_all() {
    let mut store = Store::new();
    label(&mut store, "bug");
    label(&mut store, "urgent");
    let issue = make(&mut store, with_labels("Test", &["bug", "urgent"]), T0);
    let labels = store.get_issue_labels(issue.id);
    assert_eq!(labels.len(), 2);
    let names: Vec<&str> = labels.iter().map(|l| l.name.as_str()).collect();
    assert!(names.contains(&"bug"));
    assert!(names.contains(&"urgent"));
}

#[test]
fn get_issue_labels_empty() {
    let mut store = Store::new();
    let issue = make(&mut store, titled("Test"), T0);
    assert!(store.get_issue_labels(issue.id).is_empty());
}

#[test]
fn store_invariant_check() {
    let mut store = Store::new();
    let issue = make(&mut store, titled("Test"), T0);
    assert!(store.check_wf());
    store.issues[0].state = IssueState::Closed;
    assert!(!store.check_wf());
    store.issues[0].state = IssueState::Open;
    store.links.push(ski::model::IssueLink { issue_a_id: issue.id, issue_b_id: issue.id, created_at: T0 });
    assert!(!store.check_wf());
}

#[test]
fn labels_come_in_name_order_ignoring_case() {
    let mut store = Store::new();
    label(&mut store, "bug");
    label(&mut store, "enhancement");
    label(&mut store, "Docs");
    label(&mut store, "a");
    let names: Vec<String> = store.list_labels().into_iter().map(|l| l.name).collect();
    assert_eq!(names, vec!["a", "bug", "Docs", "enhancement"]);
    let issue = make(&mut store, with_labels("Test", &["enhancement", "docs", "bug"]), T0);
    let names: Vec<String> = store.get_issue_labels(issue.id).into_iter().map(|l| l.name).collect();
    assert_eq!(names, vec!["bug", "Docs", "enhancement"]);
}

#[test]
fn label_view_drops_the_id() {
    let mut store = Store::new();
    let label = store.create_label("bug", Some("Broken"), Some("d73a4a")).unwrap();
    let view = ski::model::LabelView::from(label);
    assert_eq!(view.name, "bug");
    assert_eq!(view.color, Some("d73a4a".to_string()));
    assert_eq!(view.description, Some("Broken".to_string()));
}

fn with_body(title: &str, body: &str) -> IssueCreate {
    IssueCreate {
        title: title.to_string(),
        body: Some(body.to_string()),
        ..Default::default()
    }
}

#[test]
fn fts_search_finds_issues() {
    let mut store = Store::new();
    make(&mut store, with_body("Authentication bug", "Login fails for users"), T0);
    make(&mut store, with_body("UI improvement", "Make buttons bigger"), T0 + 1);
    let results = store.search_issues("login", &IssueFilter::default());
    assert_eq!(results.len(), 1);
    assert_eq!(results[0].id, 1);
}

#[test]
fn fts_updates_on_issue_change() {
    let mut store = Store::new();
    let issue = make(&mut store, with_body("Original title", "Some body text"), T0);
    store
        .update_issue(
            issue.id,
            &IssueUpdate {
                title: Some("Updated authentication".to_string()),
                ..Default::default()
            },
            T0 + 1,
        )
        .unwrap();
    assert!(store.search_issues("original", &IssueFilter::default()).is_empty());
    assert_eq!(store.search_issues("authentication", &IssueFilter::default()).len(), 1);
    assert_eq!(store.search_issues("body", &IssueFilter::default()).len(), 1);
}

#[test]
fn fts_removes_on_issue_delete() {
    let mut store = Store::new();
    let issue = make(&mut store, with_body("Searchable content", "findme keyword"), T0);
    assert_eq!(store.search_issues("findme", &IssueFilter::default()).len(), 1);
    store.delete_issue(issue.id, T0 + 1).unwrap();
    assert!(store.search_issues("findme", &IssueFilter::default()).is_empty());
    let with_deleted = IssueFilter {
        include_deleted: true,
        ..Default::default()
    };
    assert_eq!(store.search_issues("findme", &with_deleted).len(), 1);
}

#[test]
fn search_folds_unicode_case_and_splits_on_punctuation() {
    let mut store = Store::new();
    make(&mut store, titled("ÉCOLE ouverte"), T0);
    make(&mut store, with_body("Spelling", "naïve—test"), T0 + 1);
    assert_eq!(store.search_issues("école", &IssueFilter::default()).len(), 1);
    let found = store.search_issues("test", &IssueFilter::default());
    assert_eq!(found.len(), 1);
    assert_eq!(found[0].title, "Spelling");
    assert_eq!(store.search_issues("NAÏVE", &IssueFilter::default()).len(), 1);
    // Accents are kept.
    assert!(store.search_issues("ecole", &IssueFilter::default()).is_empty());
}

#[test]
fn empty_title_is_rejected() {
    let mut store = Store::new();
    assert!(matches!(store.create_issue(&titled(""), T0), Err(Error::EmptyTitle)));
    assert!(store.issues.is_empty());
    let issue = make(&mut store, titled("Kept"), T0);
    let result = store.update_issue(
        issue.id,
        &IssueUpdate {
            title: Some(String::new()),
            ..Default::default()
        },
        T0 + 1,
    );
    assert!(matches!(result, Err(Error::EmptyTitle)));
    assert_eq!(store.get_issue(issue.id).unwrap().title, "Kept");
    assert_eq!(Error::EmptyTitle.to_string(), "Title cannot be empty");
}

#[test]
fn unlink_keeps_the_order_of_other_links() {
    let mut store = Store::new();
    for i in 1..=4 {
        make(&mut store, titled(&format!("Issue {}", i)), T0);
    }
    store.add_link(1, 4, T0).unwrap();
    store.add_link(1, 2, T0).unwrap();
    store.add_link(3, 1, T0).unwrap();
    store.remove_link(2, 1).unwrap();
    assert_eq!(store.get_linked_issues(1), vec![4, 3]);
}
