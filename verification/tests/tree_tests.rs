use offset_dumper::tree::{
    node_rule_accepts, pick_from_families, Below, Classed, Family, InstanceSearch, NodeRule, Pick,
};

fn node(addr: u64, class: &str) -> Classed {
    Classed { addr, class: if class.is_empty() { None } else { Some(class.to_string()) } }
}

fn fam(head: Classed, kids: Vec<Classed>) -> Family {
    Family { head, kids }
}

fn one(name: &str) -> NodeRule {
    NodeRule::OneOf(vec![name.to_string()])
}

fn pick(top: NodeRule, sub: NodeRule, below: Below, limit: usize, per_family: bool) -> Pick {
    Pick { top, sub, below, limit, per_family }
}

#[test]
fn rules_take_their_names() {
    let r = NodeRule::OneOf(vec!["Model@RBX".to_string(), "ModelInstance@RBX".to_string()]);
    assert!(node_rule_accepts(&r, "ModelInstance@RBX"));
    assert!(!node_rule_accepts(&r, "Model"));
    assert!(node_rule_accepts(&NodeRule::AnyPart, "Seat@RBX"));
    assert!(!node_rule_accepts(&NodeRule::BasicPart, "Seat@RBX"));
    assert!(!node_rule_accepts(&NodeRule::OneOf(vec![]), ""));
}

fn workspace() -> Vec<Family> {
    vec![
        fam(node(0x100, "Part@RBX"), vec![node(0x110, "WedgePart@RBX")]),
        fam(node(0x200, "Model@RBX"), vec![node(0x210, "Part@RBX"), node(0x220, "Seat@RBX"), node(0x230, "TrussPart@RBX")]),
        fam(node(0x300, ""), vec![node(0x310, "CylinderPart@RBX")]),
        fam(node(0x400, "Seat@RBX"), vec![]),
    ]
}

#[test]
fn parts_are_taken_in_reading_order_up_to_the_limit() {
    let ws = workspace();
    let p = pick(NodeRule::AnyPart, NodeRule::BasicPart, Below::Always, 5, false);
    assert_eq!(pick_from_families(&ws, &p), vec![0x100, 0x110, 0x210, 0x230, 0x310]);
    let p = pick(NodeRule::AnyPart, NodeRule::BasicPart, Below::Always, 3, false);
    assert_eq!(pick_from_families(&ws, &p), vec![0x100, 0x110, 0x210]);
    let p = pick(NodeRule::AnyPart, NodeRule::BasicPart, Below::Always, 0, false);
    assert_eq!(pick_from_families(&ws, &p), Vec::<u64>::new());
}

#[test]
fn whole_families_are_taken_with_per_family() {
    let ws = workspace();
    let p = pick(NodeRule::AnyPart, NodeRule::BasicPart, Below::Always, 3, true);
    assert_eq!(pick_from_families(&ws, &p), vec![0x100, 0x110, 0x210, 0x230]);
}

#[test]
fn below_decides_where_to_look() {
    let ws = vec![
        fam(node(1, "Humanoid@RBX"), vec![node(2, "Humanoid@RBX")]),
        fam(node(3, "Model@RBX"), vec![node(4, "Humanoid@RBX")]),
        fam(node(5, ""), vec![node(6, "Humanoid@RBX")]),
    ];
    let h = || one("Humanoid@RBX");
    let all = usize::MAX;
    assert_eq!(pick_from_families(&ws, &pick(h(), h(), Below::UnlessTaken, all, false)), vec![1, 4, 6]);
    assert_eq!(pick_from_families(&ws, &pick(h(), h(), Below::WhenOtherClass, all, false)), vec![1, 4]);
    assert_eq!(pick_from_families(&ws, &pick(h(), h(), Below::Always, all, false)), vec![1, 2, 4, 6]);
    assert_eq!(pick_from_families(&ws, &pick(h(), h(), Below::Never, all, false)), vec![1]);
}

#[test]
fn stats_are_found_below_other_services() {
    let dm = vec![
        fam(node(0x10, ""), vec![node(0x11, "StatsItem@RBX")]),
        fam(node(0x20, "Workspace@RBX"), vec![node(0x21, "StatsItem@RBX")]),
        fam(node(0x30, "Stats@RBX"), vec![]),
    ];
    let top = NodeRule::OneOf(vec!["Stats@RBX".to_string(), "StatsItem@RBX".to_string()]);
    let p = pick(top, one("StatsItem@RBX"), Below::WhenOtherClass, 1, false);
    assert_eq!(pick_from_families(&dm, &p), vec![0x21]);
}

#[test]
fn search_walks_depth_first_until_max() {
    let mut s = InstanceSearch::new(1, "Sound@RBX".to_string(), 2);
    assert_eq!(s.next(), Some(1));
    s.feed(&vec![node(2, "Folder@RBX"), node(3, "Sound@RBX"), node(4, "Part@RBX")]);
    assert_eq!(s.found(), vec![3]);
    // the last child put on the stack is looked at first
    assert_eq!(s.next(), Some(4));
    s.feed(&vec![node(5, "Sound@RBX"), node(6, "Sound@RBX")]);
    assert_eq!(s.found(), vec![3, 5]);
    assert_eq!(s.next(), None);
}

#[test]
fn search_ends_when_the_stack_is_empty() {
    let mut s = InstanceSearch::new(7, "Sound@RBX".to_string(), 3);
    assert_eq!(s.next(), Some(7));
    s.feed(&vec![]);
    assert_eq!(s.next(), None);
    assert_eq!(s.found(), Vec::<u64>::new());
    let mut z = InstanceSearch::new(7, "Sound@RBX".to_string(), 0);
    assert_eq!(z.next(), None);
}

fn run_on_tree(root: u64, class: &str, max: usize, kids_of: &dyn Fn(u64) -> Vec<Classed>) -> Vec<u64> {
    let mut s = InstanceSearch::new(root, class.to_string(), max);
    while let Some(n) = s.next() {
        s.feed(&kids_of(n));
    }
    s.found()
}

fn small_tree(n: u64) -> Vec<Classed> {
    match n {
        1 => vec![node(2, "Sound@RBX"), node(3, "Folder@RBX"), node(4, "Sound@RBX")],
        2 => vec![node(5, "Sound@RBX")],
        3 => vec![node(6, "Sound@RBX"), node(7, "Part@RBX")],
        4 => vec![node(8, "")],
        _ => vec![],
    }
}

#[test]
fn finished_search_gives_every_match_once_when_fewer_than_max() {
    let r = run_on_tree(1, "Sound@RBX", 10, &small_tree);
    assert_eq!(r, vec![2, 4, 6, 5]);
    let mut sorted = r.clone();
    sorted.sort();
    sorted.dedup();
    assert_eq!(sorted.len(), r.len());
    assert!(!r.contains(&1));
}

#[test]
fn finished_search_stops_at_max() {
    assert_eq!(run_on_tree(1, "Sound@RBX", 3, &small_tree), vec![2, 4, 6]);
    assert_eq!(run_on_tree(1, "Sound@RBX", 1, &small_tree), vec![2]);
}
