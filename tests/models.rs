use std::str::FromStr;

use ski::model::{
    parse_issue_state, parse_issue_type, parse_state_reason, IssueFilter, IssueState, IssueType,
    SortField, SortOrder, StateReason,
};

#[test]
fn issue_type_from_str_valid() {
    assert_eq!(IssueType::from_str("task").unwrap(), IssueType::Task);
    assert_eq!(IssueType::from_str("bug").unwrap(), IssueType::Bug);
    assert_eq!(IssueType::from_str("epic").unwrap(), IssueType::Epic);
    assert_eq!(IssueType::from_str("request").unwrap(), IssueType::Request);
}

#[test]
fn issue_type_from_str_invalid() {
    assert!(IssueType::from_str("invalid").is_err());
    assert!(IssueType::from_str("").is_err());
}

#[test]
fn issue_type_case_insensitive() {
    assert_eq!(IssueType::from_str("BUG").unwrap(), IssueType::Bug);
    assert_eq!(IssueType::from_str("Bug").unwrap(), IssueType::Bug);
    assert_eq!(IssueType::from_str("TASK").unwrap(), IssueType::Task);
}

#[test]
fn state_reason_from_str_valid() {
    assert_eq!(
        StateReason::from_str("completed").unwrap(),
        StateReason::Completed
    );
    assert_eq!(
        StateReason::from_str("not_planned").unwrap(),
        StateReason::NotPlanned
    );
}

#[test]
fn state_reason_accepts_notplanned_and_rejects_others() {
    assert_eq!(
        StateReason::from_str("NotPlanned").unwrap(),
        StateReason::NotPlanned
    );
    assert!(StateReason::from_str("wontfix").is_err());
}

#[test]
fn issue_filter_default_values() {
    let filter = IssueFilter::new();
    assert_eq!(filter.state, None);
    assert_eq!(filter.issue_type, None);
    assert!(filter.labels.is_empty());
    assert!(!filter.include_deleted);
    assert_eq!(filter.sort_by, SortField::Updated);
    assert_eq!(filter.sort_order, SortOrder::Desc);
    assert_eq!(filter.limit, 30);
    assert_eq!(filter.offset, 0);
}

#[test]
fn issue_filter_default_and_new_are_consistent() {
    let from_default = IssueFilter::default();
    let from_new = IssueFilter::new();
    assert_eq!(from_default.limit, from_new.limit);
    assert_eq!(from_default.limit, 30);
}

#[test]
fn names_of_enums() {
    assert_eq!(IssueType::Request.as_str(), "request");
    assert_eq!(IssueState::Closed.as_str(), "closed");
    assert_eq!(StateReason::NotPlanned.as_str(), "not_planned");
}

#[test]
fn stored_names_fall_back_to_defaults() {
    assert_eq!(parse_issue_type("epic"), IssueType::Epic);
    assert_eq!(parse_issue_type("EPIC"), IssueType::Task);
    assert_eq!(parse_issue_state("closed"), IssueState::Closed);
    assert_eq!(parse_issue_state("weird"), IssueState::Open);
    assert_eq!(parse_state_reason("not_planned"), StateReason::NotPlanned);
    assert_eq!(parse_state_reason("other"), StateReason::Completed);
}
