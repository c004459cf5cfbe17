use tukituki::rows::{compute, Row};
use tukituki::strmap::StrMap;
use tukituki::target::RunTarget;

fn tg(name: &str, group: &str) -> RunTarget {
    RunTarget { name: name.into(), group: group.into(), ..Default::default() }
}

#[test]
fn top_level_only() {
    let targets = vec![tg("a", ""), tg("b", "")];
    let rows = compute(&targets, &StrMap::new());
    assert_eq!(
        rows,
        vec![
            Row::Target { target_idx: 0, group: String::new() },
            Row::Target { target_idx: 1, group: String::new() }
        ]
    );
}

#[test]
fn collapsed_folder_hides_targets() {
    let targets = vec![tg("api", ""), tg("kb-acme", "kb"), tg("kb-sentinel", "kb")];
    let rows = compute(&targets, &StrMap::new());
    assert_eq!(
        rows,
        vec![
            Row::Target { target_idx: 0, group: String::new() },
            Row::Folder { group: "kb".into(), expanded: false, count: 2 },
        ]
    );
}

#[test]
fn expanded_folder_shows_targets() {
    let targets = vec![tg("api", ""), tg("kb-acme", "kb"), tg("kb-sentinel", "kb")];
    let mut expanded = StrMap::new();
    expanded.insert("kb".into(), true);
    let rows = compute(&targets, &expanded);
    assert_eq!(
        rows,
        vec![
            Row::Target { target_idx: 0, group: String::new() },
            Row::Folder { group: "kb".into(), expanded: true, count: 2 },
            Row::Target { target_idx: 1, group: "kb".into() },
            Row::Target { target_idx: 2, group: "kb".into() },
        ]
    );
}

#[test]
fn folder_groups_sorted_alphabetically() {
    let targets = vec![tg("z-target", "zzz"), tg("a-target", "aaa"), tg("toplevel", "")];
    let mut expanded = StrMap::new();
    expanded.insert("aaa".into(), true);
    expanded.insert("zzz".into(), true);
    let rows = compute(&targets, &expanded);
    let Row::Target { target_idx, .. } = &rows[0] else {
        panic!("first row must be a target: {:?}", rows[0]);
    };
    assert_eq!(*target_idx, 2);
    match &rows[1] {
        Row::Folder { group, .. } => assert_eq!(group, "aaa"),
        other => panic!("expected aaa folder, got {other:?}"),
    }
    match &rows[3] {
        Row::Folder { group, .. } => assert_eq!(group, "zzz"),
        other => panic!("expected zzz folder, got {other:?}"),
    }
}

#[test]
fn virtual_targets_sit_below_a_separator() {
    let mut v = tg("otel-errors", "");
    v.is_virtual = true;
    let targets = vec![tg("a", ""), v, tg("k", "kb")];
    let rows = compute(&targets, &StrMap::new());
    assert_eq!(
        rows,
        vec![
            Row::Target { target_idx: 0, group: String::new() },
            Row::Folder { group: "kb".into(), expanded: false, count: 1 },
            Row::Separator,
            Row::Target { target_idx: 1, group: String::new() },
        ]
    );
}
