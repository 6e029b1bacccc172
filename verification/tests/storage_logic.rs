use observation_tools::ids::{ExecutionId, GroupId, ObservationId, PayloadId};
use observation_tools::lookup::{AncestorChain, AncestorWalk, ChildScan};
use observation_tools::model::{LogLevel, Observation, ObservationType, SourceInfo, Timestamp};
use observation_tools::pages::{ObservationPageScan, group_child_entries, into_stored_payload, payload_page};
use observation_tools::proto::{
    StoredExecution, StoredGroupChild, StoredObservation, StoredPayloadEntry, StoredPayloadMeta,
    log_level_from_i32, log_level_to_i32, observation_type_from_i32, observation_type_to_i32,
};
use observation_tools::storage::{
    Group, GroupDirectDescendantsPage, GroupLevels, GroupMembershipOptions, GroupTree, GroupTreeNode,
    ObservationWithPayloads, PaginationInfo, PayloadData, StorageError, StoredPayload, make_group_tree,
    root_group_id,
};
use observation_tools::tree_bfs::{TreeBfs, TreeEntry, set_group_content_at_path, tree_node_for};
use observation_tools::walk::{DescendantsWalk, LevelRead, expandable_group_ids};

fn at(secs: i64) -> Timestamp {
    Timestamp::from_parts(secs, 0).unwrap()
}

fn observation(id: u128, name: &str) -> Observation {
    Observation {
        id: ObservationId(id),
        execution_id: ExecutionId(7),
        name: name.to_string(),
        observation_type: ObservationType::LogEntry,
        log_level: LogLevel::Info,
        source: None,
        metadata: Vec::new(),
        group_ids: Vec::new(),
        parent_group_id: None,
        parent_span_id: None,
        created_at: at(1_700_000_000),
    }
}

fn group_obs(id: u128, name: &str, group: &str, parent: Option<&str>) -> Observation {
    let mut o = observation(id, name);
    o.observation_type = ObservationType::Group;
    o.group_ids = vec![GroupId::from(group.to_string())];
    o.parent_group_id = parent.map(|p| GroupId::from(p.to_string()));
    o
}

fn with_payloads(o: Observation) -> ObservationWithPayloads {
    ObservationWithPayloads { observation: o, payloads: Vec::new() }
}

fn page(nodes: Vec<GroupTreeNode>, next: Option<&str>) -> GroupDirectDescendantsPage {
    let n = nodes.len();
    GroupDirectDescendantsPage {
        descendants: nodes,
        pagination: PaginationInfo { item_count: n, previous_page_token: None, next_page_token: next.map(|s| s.to_string()) },
    }
}

fn empty_page() -> GroupDirectDescendantsPage {
    page(Vec::new(), None)
}

fn group_node(id: u128, name: &str, group: &str, parent: Option<&str>) -> GroupTreeNode {
    GroupTreeNode::Group(Group {
        metadata: with_payloads(group_obs(id, name, group, parent)),
        group_ancestors: Vec::new(),
        content: empty_page(),
    })
}

fn leaf(id: u128, name: &str) -> GroupTreeNode {
    GroupTreeNode::Observation(with_payloads(observation(id, name)))
}

fn name_of(n: &GroupTreeNode) -> &str {
    match n {
        GroupTreeNode::Group(g) => &g.metadata.observation.name,
        GroupTreeNode::Observation(o) => &o.observation.name,
    }
}

#[test]
fn codes_read_back() {
    for t in [ObservationType::LogEntry, ObservationType::Payload, ObservationType::Span, ObservationType::Group] {
        assert_eq!(observation_type_from_i32(observation_type_to_i32(t)), t);
    }
    for l in [LogLevel::Trace, LogLevel::Debug, LogLevel::Info, LogLevel::Warning, LogLevel::Error] {
        assert_eq!(log_level_from_i32(log_level_to_i32(l)), l);
    }
    assert_eq!(observation_type_to_i32(ObservationType::Group), 3);
    assert_eq!(log_level_to_i32(LogLevel::Warning), 3);
    assert_eq!(observation_type_from_i32(99), ObservationType::Payload);
    assert_eq!(log_level_from_i32(-1), LogLevel::Info);
}

#[test]
fn stored_observation_reads_back() {
    let mut o = group_obs(42, "grp", "g1", Some("g0"));
    o.metadata = vec![("k".to_string(), "v".to_string())];
    o.source = Some(SourceInfo { file: "main.rs".to_string(), line: 3, column: Some(9) });
    o.parent_span_id = Some("span".to_string());
    let stored = StoredObservation::from_observation(&o);
    assert_eq!(stored.id, "0000000000000000000000000000002a");
    assert_eq!(stored.observation_type, 3);
    assert_eq!(stored.created_at, "2023-11-14T22:13:20+00:00");
    let back = stored.to_observation().unwrap();
    assert_eq!(back.id, o.id);
    assert_eq!(back.execution_id, o.execution_id);
    assert_eq!(back.name, "grp");
    assert_eq!(back.group_ids, o.group_ids);
    assert_eq!(back.parent_group_id, o.parent_group_id);
    assert_eq!(back.metadata, o.metadata);
    assert_eq!(back.created_at, o.created_at);
    assert_eq!(back.source.unwrap().column, Some(9));
}

#[test]
fn stored_observation_with_bad_id_is_internal_error() {
    let o = observation(1, "x");
    let mut stored = StoredObservation::from_observation(&o);
    stored.id = "zzz".to_string();
    match stored.to_observation() {
        Err(StorageError::Internal(m)) => assert!(m.starts_with("Invalid observation ID: Invalid observation ID: ")),
        other => panic!("unexpected {:?}", other.map(|o| o.name)),
    }
    let mut stored = StoredObservation::from_observation(&o);
    stored.created_at = "yesterday".to_string();
    assert!(matches!(stored.to_observation(), Err(StorageError::Internal(_))));
}

#[test]
fn stored_execution_reads_back() {
    let e = observation_tools::model::Execution::with_id(ExecutionId(9), "run".to_string());
    let stored = StoredExecution::from_execution(&e);
    let back = stored.to_execution().unwrap();
    assert_eq!(back.id, e.id);
    assert_eq!(back.name, "run");
    assert_eq!(back.created_at, e.created_at);
}

#[test]
fn payload_meta_and_entries() {
    let meta = StoredPayloadMeta { payload_id: "p1".to_string(), name: "n".to_string(), mime_type: "m".to_string(), size: 1, is_blob: false };
    assert_eq!(meta.payload_id().unwrap().as_str(), "p1");
    let blob = into_stored_payload(PayloadId::from_text("b"), StoredPayloadEntry { name: "n".into(), mime_type: "m".into(), size: 70000, is_blob: true, data: vec![] });
    assert!(matches!(blob.data, PayloadData::Blob));
    assert_eq!(blob.size, 70000);
    let inline = into_stored_payload(PayloadId::from_text("i"), StoredPayloadEntry { name: "n".into(), mime_type: "m".into(), size: 2, is_blob: false, data: vec![1, 2] });
    assert!(matches!(inline.data, PayloadData::Inline(ref d) if d == &vec![1u8, 2]));
}

#[test]
fn root_key_uses_sentinel() {
    assert_eq!(root_group_id(&None).as_str(), "_ROOT_");
    assert_eq!(root_group_id(&Some(GroupId::from("g".to_string()))).as_str(), "g");
}

#[test]
fn group_tree_attaches_children() {
    let mut levels = GroupLevels::new();
    levels.insert(GroupId::from("_ROOT_".to_string()), page(vec![group_node(1, "parent-group", "g1", None), leaf(2, "root-leaf")], None));
    levels.insert(GroupId::from("g1".to_string()), page(vec![leaf(3, "child-1"), leaf(4, "child-2")], None));
    match make_group_tree(levels, GroupId::from("_ROOT_".to_string())) {
        GroupTree::Tree { roots } => {
            assert_eq!(roots.len(), 2);
            match &roots[0] {
                GroupTreeNode::Group(g) => {
                    assert_eq!(g.metadata.observation.name, "parent-group");
                    assert_eq!(g.content.descendants.len(), 2);
                    assert_eq!(name_of(&g.content.descendants[1]), "child-2");
                }
                _ => panic!("expected group node"),
            }
        }
        GroupTree::List(_) => panic!("expected tree, got list"),
    }
}

#[test]
fn group_tree_lists_a_paged_root() {
    let mut levels = GroupLevels::new();
    levels.insert(GroupId::from("_ROOT_".to_string()), page(vec![leaf(1, "a")], Some("tok")));
    assert!(matches!(make_group_tree(levels, GroupId::from("_ROOT_".to_string())), GroupTree::List(_)));
    assert!(matches!(make_group_tree(GroupLevels::new(), GroupId::from("_ROOT_".to_string())), GroupTree::Tree { ref roots } if roots.is_empty()));
}

#[test]
fn nested_groups_attach_level_by_level() {
    let mut levels = GroupLevels::new();
    levels.insert(GroupId::from("_ROOT_".to_string()), page(vec![group_node(1, "grandparent", "gp", None)], None));
    levels.insert(GroupId::from("gp".to_string()), page(vec![group_node(2, "parent", "p", Some("gp"))], None));
    levels.insert(GroupId::from("p".to_string()), page(vec![leaf(3, "leaf")], None));
    match make_group_tree(levels, GroupId::from("_ROOT_".to_string())) {
        GroupTree::Tree { roots } => match &roots[0] {
            GroupTreeNode::Group(g) => match &g.content.descendants[0] {
                GroupTreeNode::Group(inner) => {
                    assert_eq!(inner.metadata.observation.name, "parent");
                    assert_eq!(inner.content.descendants.len(), 1);
                }
                _ => panic!("expected inner group"),
            },
            _ => panic!("expected group"),
        },
        GroupTree::List(_) => panic!("expected tree"),
    }
}

#[test]
fn levels_map_replaces_and_removes() {
    let mut levels = GroupLevels::new();
    let g = GroupId::from("g".to_string());
    levels.insert(g.clone(), page(vec![leaf(1, "a")], None));
    levels.insert(g.clone(), page(vec![leaf(2, "b"), leaf(3, "c")], None));
    assert_eq!(levels.len(), 1);
    assert_eq!(levels.get(&g).unwrap().descendants.len(), 2);
    assert!(levels.remove(&g).is_some());
    assert!(levels.remove(&g).is_none());
}

fn options(max: usize) -> GroupMembershipOptions {
    GroupMembershipOptions { root: None, expanded: Vec::new(), collapsed: Vec::new(), max_default_nodes: max, page_size: 100 }
}

#[test]
fn walk_reads_levels_within_budget() {
    let root = page(vec![group_node(1, "parent-group", "g1", None), leaf(2, "x")], None);
    let mut walk = DescendantsWalk::start(options(100), root);
    let (ids, budget) = walk.pending_level().unwrap();
    assert_eq!(ids.len(), 1);
    assert_eq!(ids[0].as_str(), "g1");
    assert_eq!(budget, 98);
    let mut read = LevelRead::new(ids, budget);
    let (id, limit) = read.next_read().unwrap();
    assert_eq!(id.as_str(), "g1");
    assert_eq!(limit, 99);
    read.accept(page(vec![leaf(3, "child-1"), leaf(4, "child-2")], None));
    assert!(read.next_read().is_none());
    walk.absorb_level(read.finish());
    assert!(walk.pending_level().is_none());
    let levels = walk.finish();
    match make_group_tree(levels, root_group_id(&None)) {
        GroupTree::Tree { roots } => match &roots[0] {
            GroupTreeNode::Group(g) => assert_eq!(g.content.descendants.len(), 2),
            _ => panic!("expected group node"),
        },
        _ => panic!("expected tree"),
    }
}

#[test]
fn walk_stops_at_collapsed_groups_and_exhausted_budget() {
    let mut opts = options(1);
    opts.collapsed = vec![GroupId::from("g2".to_string())];
    let root = page(vec![group_node(1, "a", "g1", None), group_node(2, "b", "g2", None)], None);
    assert_eq!(expandable_group_ids(&root, &opts.collapsed).len(), 1);
    let walk = DescendantsWalk::start(opts, root);
    assert!(walk.pending_level().is_none());
}

#[test]
fn level_read_gives_up_on_a_page_too_large() {
    let mut read = LevelRead::new(vec![GroupId::from("g".to_string())], 1);
    read.accept(page(vec![leaf(1, "a"), leaf(2, "b")], None));
    assert!(read.next_read().is_none());
    assert!(read.finish().is_none());
}

#[test]
fn level_read_gives_up_on_a_group_with_a_further_page() {
    let mut read = LevelRead::new(vec![GroupId::from("g".to_string())], 5);
    assert_eq!(read.next_read().unwrap().1, 6);
    read.accept(page(vec![leaf(1, "a"), leaf(2, "b")], Some("b")));
    assert!(read.next_read().is_none());
    assert!(read.finish().is_none());
    let mut read = LevelRead::new(vec![GroupId::from("g".to_string())], usize::MAX);
    assert_eq!(read.next_read().unwrap().1, usize::MAX);
}

#[test]
fn ancestor_walk_detects_cycles_and_missing_groups() {
    let mut walk = AncestorWalk::new(GroupId::from("a".to_string()), None);
    assert_eq!(walk.next_lookup().unwrap().as_str(), "a");
    walk.on_group(Some(group_obs(1, "a", "a", Some("b")))).unwrap();
    assert_eq!(walk.next_lookup().unwrap().as_str(), "b");
    walk.on_group(Some(group_obs(2, "b", "b", Some("a")))).unwrap();
    assert_eq!(walk.next_lookup().unwrap().as_str(), "a");
    match walk.on_group(Some(group_obs(1, "a", "a", Some("b")))) {
        Err(StorageError::Internal(m)) => assert_eq!(m, "Cycle detected GroupId(\"a\") -> Some(GroupId(\"b\"))"),
        other => panic!("expected a cycle, got {:?}", other),
    }
    let mut missing = AncestorWalk::new(GroupId::from("x".to_string()), None);
    match missing.on_group(None) {
        Err(StorageError::NotFound(m)) => assert_eq!(m, "Group GroupId(\"x\") does not exist"),
        other => panic!("expected not found, got {:?}", other),
    }
}

#[test]
fn ancestor_walk_stops_before_the_given_parent() {
    let mut walk = AncestorWalk::new(GroupId::from("c".to_string()), Some(GroupId::from("a".to_string())));
    walk.on_group(Some(group_obs(3, "c", "c", Some("b")))).unwrap();
    walk.on_group(Some(group_obs(2, "b", "b", Some("a")))).unwrap();
    assert!(walk.next_lookup().is_none());
    assert_eq!(walk.finish().len(), 2);
}

#[test]
fn ancestor_chain_is_oldest_first_without_repeats() {
    let mut chain = AncestorChain::new(Some(GroupId::from("p".to_string())));
    assert_eq!(chain.next_lookup().unwrap().as_str(), "p");
    chain.on_parent(Some(Some(GroupId::from("gp".to_string()))));
    assert_eq!(chain.next_lookup().unwrap().as_str(), "gp");
    chain.on_parent(Some(Some(GroupId::from("p".to_string()))));
    assert!(chain.next_lookup().is_none());
    let ids: Vec<String> = chain.finish().into_iter().map(|g| g.as_str().to_string()).collect();
    assert_eq!(ids, vec!["gp".to_string(), "p".to_string()]);
}

#[test]
fn child_scan_pages_with_token_of_last_child() {
    let mut scan = ChildScan::new(2);
    for (i, id) in ["c1", "c2", "c3"].iter().enumerate() {
        assert!(!scan.is_full());
        scan.offer(StoredGroupChild { child_id: id.to_string(), is_group: false }, with_payloads(observation(i as u128, id)));
    }
    assert!(scan.is_full());
    let (items, token) = scan.finish();
    assert_eq!(items.len(), 2);
    assert_eq!(token, Some("c2".to_string()));
}

#[test]
fn index_entries_follow_group_membership() {
    let e = ExecutionId(1);
    let g = group_obs(5, "g", "g5", None);
    let entries = group_child_entries(&e, &g);
    assert_eq!(entries.len(), 1);
    assert_eq!(entries[0].0, "00000000000000000000000000000001:_ROOT_:00000000000000000000000000000005");
    assert!(entries[0].1.is_group);
    let mut o = observation(6, "o");
    o.group_ids = vec![GroupId::from("a".to_string()), GroupId::from("b".to_string())];
    let entries = group_child_entries(&e, &o);
    assert_eq!(entries.len(), 2);
    assert_eq!(entries[1].0, "00000000000000000000000000000001:b:00000000000000000000000000000006");
    assert!(!entries[1].1.is_group);
}

#[test]
fn observation_pages_hold_one_page() {
    let mut scan = ObservationPageScan::new(2, Some(ObservationType::LogEntry));
    let mut g = observation(9, "g");
    g.observation_type = ObservationType::Group;
    scan.offer(with_payloads(g));
    for i in 0..3u128 {
        if scan.is_done() {
            break;
        }
        scan.offer(with_payloads(observation(i + 1, "o")));
    }
    assert!(scan.is_done());
    let page = scan.finish(Some("prev".to_string()));
    assert_eq!(page.observations.len(), 2);
    assert_eq!(page.pagination.item_count, 2);
    assert_eq!(page.pagination.previous_page_token, Some("prev".to_string()));
    assert_eq!(page.pagination.next_page_token, Some(ObservationId(2).to_string()));
}

fn payload(id: &str) -> StoredPayload {
    StoredPayload { id: PayloadId::from_text(id), name: id.to_string(), mime_type: "text/plain".to_string(), size: 1, data: PayloadData::Inline(vec![1]) }
}

#[test]
fn payload_pages_hold_one_page() {
    let p = payload_page(vec![payload("a"), payload("b"), payload("c")], 2, None);
    assert_eq!(p.payloads.len(), 2);
    assert_eq!(p.pagination.next_page_token, Some("b".to_string()));
    let q = payload_page(vec![payload("a")], 2, Some("x".to_string()));
    assert_eq!(q.payloads.len(), 1);
    assert!(q.pagination.next_page_token.is_none());
}

fn group_entry(id: u128, name: &str, group: &str) -> TreeEntry {
    (StoredGroupChild { child_id: format!("c{}", id), is_group: true }, with_payloads(group_obs(id, name, group, None)), Vec::new())
}

fn leaf_entry(id: u128, name: &str) -> TreeEntry {
    (StoredGroupChild { child_id: format!("c{}", id), is_group: false }, with_payloads(observation(id, name)), Vec::new())
}

#[test]
fn tree_bfs_places_children_within_budget() {
    assert!(TreeBfs::lists_roots(11, 10));
    assert!(!TreeBfs::lists_roots(10, 10));
    let child = StoredGroupChild { child_id: "c".to_string(), is_group: true };
    let (_, key) = tree_node_for(&child, with_payloads(group_obs(1, "parent-group", "g1", None)), Vec::new());
    assert_eq!(key.as_deref(), Some("g1"));
    let mut bfs = TreeBfs::start(3, vec![group_entry(1, "parent-group", "g1")]);
    let (key, path) = bfs.next_group().unwrap();
    assert_eq!(key, "g1");
    assert_eq!(path, vec![0]);
    let kids = vec![leaf_entry(2, "child-1"), leaf_entry(3, "child-2")];
    assert!(bfs.add_children(path, kids));
    assert!(bfs.next_group().is_none());
    match bfs.finish() {
        GroupTree::Tree { roots } => match &roots[0] {
            GroupTreeNode::Group(g) => {
                assert_eq!(g.content.descendants.len(), 2);
                assert_eq!(g.content.pagination.item_count, 2);
            }
            _ => panic!("expected group node"),
        },
        _ => panic!("expected tree"),
    }
}

#[test]
fn tree_bfs_leaves_groups_that_do_not_fit_empty() {
    let mut bfs = TreeBfs::start(2, vec![group_entry(1, "g", "g1")]);
    let (_, path) = bfs.next_group().unwrap();
    assert!(!bfs.add_children(path, vec![leaf_entry(2, "a"), leaf_entry(3, "b")]));
}

#[test]
fn content_is_set_at_a_path() {
    let mut roots = vec![group_node(1, "a", "ga", None)];
    set_group_content_at_path(&mut roots, &[0], vec![group_node(2, "b", "gb", Some("ga"))], 1);
    set_group_content_at_path(&mut roots, &[0, 0], vec![leaf(3, "c")], 1);
    match &roots[0] {
        GroupTreeNode::Group(g) => match &g.content.descendants[0] {
            GroupTreeNode::Group(inner) => assert_eq!(name_of(&inner.content.descendants[0]), "c"),
            _ => panic!("expected inner group"),
        },
        _ => panic!("expected group"),
    }
}

#[test]
fn payload_entries_read_back() {
    let inline = StoredPayload {
        id: PayloadId::from_text("p1"),
        name: "body".to_string(),
        mime_type: "text/plain".to_string(),
        size: 3,
        data: PayloadData::Inline(vec![1, 2, 3]),
    };
    let entry = observation_tools::pages::stored_payload_entry(&inline);
    assert!(!entry.is_blob);
    let back = into_stored_payload(inline.id.clone(), entry);
    assert_eq!(back.id.as_str(), "p1");
    assert_eq!(back.name, "body");
    assert_eq!(back.size, 3);
    assert!(matches!(back.data, PayloadData::Inline(ref d) if d == &vec![1u8, 2, 3]));

    let blob = StoredPayload { data: PayloadData::Blob, size: 100000, ..inline };
    let entry = observation_tools::pages::stored_payload_entry(&blob);
    assert!(entry.is_blob && entry.data.is_empty());
    let back = into_stored_payload(blob.id.clone(), entry);
    assert!(matches!(back.data, PayloadData::Blob));
    assert_eq!(back.size, 100000);
}

#[test]
fn tree_bfs_ignores_a_path_that_does_not_lead() {
    let mut bfs = TreeBfs::start(5, vec![group_entry(1, "g", "g1")]);
    assert!(bfs.add_children(vec![4], vec![leaf_entry(2, "a")]));
    match bfs.finish() {
        GroupTree::Tree { roots } => {
            assert_eq!(roots.len(), 1);
            match &roots[0] {
                GroupTreeNode::Group(g) => assert!(g.content.descendants.is_empty()),
                _ => panic!("expected group node"),
            }
        }
        _ => panic!("expected tree"),
    }
}
