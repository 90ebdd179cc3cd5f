use devplan::models::{BatchResult, CoOwner, Developer, StandupItem, TaskFilter};

#[test]
fn the_default_filter_asks_for_every_task() {
    let f = TaskFilter::default();
    assert!(f.sprint_id.is_none());
    assert!(f.owner_id.is_none());
    assert!(f.status.is_none());
    assert!(f.task_type.is_none());
    assert!(f.priority.is_none());
    assert!(f.search.is_none());
}

#[test]
fn records_can_be_copied() {
    let r = BatchResult { success_count: 2, fail_count: 1, errors: vec![String::from("e")] };
    let c = r.clone();
    assert_eq!((c.success_count, c.fail_count, c.errors), (2, 1, vec![String::from("e")]));
    let o = CoOwner { developer_id: 3, developer_name: String::from("Li") }.clone();
    assert_eq!((o.developer_id, o.developer_name.as_str()), (3, "Li"));
    let i = StandupItem { text: String::from("t"), task_id: Some(9) }.clone();
    assert_eq!((i.text.as_str(), i.task_id), ("t", Some(9)));
}

#[test]
fn the_default_colours_of_developers() {
    assert_eq!(
        Developer::default_colors(),
        vec![
            "#1890ff", "#52c41a", "#faad14", "#f5222d", "#722ed1", "#13c2c2", "#eb2f96", "#fa8c16",
            "#a0d911", "#2f54eb", "#fadb14",
        ]
    );
}
