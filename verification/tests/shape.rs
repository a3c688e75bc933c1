use apispec::{
    Document, DocumentV3, Fragment, Method, MethodMap, Operation, PathItem, Schema, StrMap,
};

fn item_with(params: Vec<u64>, entries: &[(Method, u64, Vec<u64>)]) -> PathItem {
    let mut methods = MethodMap::new();
    for (m, body, ps) in entries {
        methods.insert(*m, Operation::new(*body, ps.clone()));
    }
    PathItem { parameters: params, methods }
}

fn assert_item_eq(a: &PathItem, b: &PathItem, methods: &[Method]) {
    assert_eq!(a.parameters, b.parameters);
    assert_eq!(a.methods.len(), b.methods.len());
    for m in methods {
        let oa = a.methods.get(*m).unwrap();
        let ob = b.methods.get(*m).unwrap();
        assert_eq!(oa.body(), ob.body());
        assert_eq!(oa.parameters(), ob.parameters());
    }
}

#[test]
fn normalize_sorts_and_dedups() {
    let mut item = item_with(vec![5, 3, 5], &[(Method::Get, 1, vec![9, 2, 9, 3])]);
    item.normalize();
    assert_eq!(item.parameters, vec![3, 5]);
    let op = item.methods.get(Method::Get).unwrap();
    // 3 is declared at path level, so it leaves the operation's list
    assert_eq!(op.parameters(), &vec![2, 9]);
    assert_eq!(op.body(), 1);
}

#[test]
fn normalize_is_idempotent() {
    let mut once = item_with(vec![7, 1, 1, 4], &[(Method::Get, 1, vec![4, 8, 8, 2])]);
    once.normalize();
    let mut twice = once.dup();
    twice.normalize();
    assert_item_eq(&once, &twice, &[Method::Get]);
}

#[test]
fn merge_with_normalization_flag() {
    let mut d = Document::new();
    let mut ops = MethodMap::new();
    ops.insert(Method::Get, Operation::new(1, vec![6, 6, 5]));
    let mut f = Fragment::new("/x".to_string(), ops, StrMap::new(), StrMap::new());
    d.update_from_mountable(&mut f, true);
    let item = d.paths.get(&"/x".to_string()).unwrap();
    assert_eq!(
        item.methods.get(Method::Get).unwrap().parameters(),
        &vec![5, 6]
    );
}

#[test]
fn trim_strips_base_path_prefix() {
    let mut d = Document::new();
    d.set_base_path("/api".to_string());
    let mut a = Fragment::new(
        "/api/users".to_string(),
        method_map(Method::Get, 1),
        StrMap::new(),
        StrMap::new(),
    );
    let mut b = Fragment::new(
        "/health".to_string(),
        method_map(Method::Get, 2),
        StrMap::new(),
        StrMap::new(),
    );
    d.update_from_mountable(&mut a, false);
    d.update_from_mountable(&mut b, false);
    let d = d.trim_base_path();
    assert_eq!(d.paths.len(), 2);
    let users = d.paths.get(&"/users".to_string()).unwrap();
    assert_eq!(users.methods.get(Method::Get).unwrap().body(), 1);
    // a path not starting with the base path is left unchanged
    let health = d.paths.get(&"/health".to_string()).unwrap();
    assert_eq!(health.methods.get(Method::Get).unwrap().body(), 2);
    assert_eq!(d.base_path, Some("/api".to_string()));
}

#[test]
fn trim_without_base_path_keeps_keys() {
    let mut d = Document::new();
    let mut a = Fragment::new(
        "/users".to_string(),
        method_map(Method::Get, 1),
        StrMap::new(),
        StrMap::new(),
    );
    d.update_from_mountable(&mut a, false);
    let d = d.trim_base_path();
    assert!(d.paths.contains(&"/users".to_string()));
}

fn method_map(m: Method, body: u64) -> MethodMap {
    let mut ops = MethodMap::new();
    ops.insert(m, Operation::new(body, Vec::new()));
    ops
}

fn assert_v3_eq(a: &DocumentV3, b: &DocumentV3) {
    assert_eq!(a.paths.len(), b.paths.len());
    assert_eq!(a.schemas.len(), b.schemas.len());
    assert_eq!(a.security_schemes.len(), b.security_schemes.len());
    assert_eq!(a.server_url, b.server_url);
}

#[test]
fn translation_is_pure() {
    let mut d = Document::new();
    d.set_base_path("/api".to_string());
    let mut defs = StrMap::new();
    defs.insert("Pet".to_string(), Schema::new(100));
    let mut f = Fragment::new(
        "/api/pets".to_string(),
        method_map(Method::Get, 1),
        defs,
        StrMap::new(),
    );
    d.update_from_mountable(&mut f, false);

    let t1 = d.translate();
    let t2 = d.translate();
    assert_v3_eq(&t1, &t2);

    // the source document is not disturbed
    assert!(d.paths.contains(&"/api/pets".to_string()));
    assert_eq!(d.definitions.get(&"Pet".to_string()).unwrap().body, 100);

    // structural remapping: definitions become component schemas and the
    // base path becomes the server URL
    assert_eq!(t1.schemas.get(&"Pet".to_string()).unwrap().body, 100);
    assert_eq!(t1.server_url, Some("/api".to_string()));
    assert!(t1.paths.contains(&"/api/pets".to_string()));
}

#[test]
fn snapshot_is_point_in_time() {
    let mut d = Document::new();
    let mut a = Fragment::new(
        "/pets".to_string(),
        method_map(Method::Get, 1),
        StrMap::new(),
        StrMap::new(),
    );
    d.update_from_mountable(&mut a, false);
    let snap = d.snapshot();
    let mut b = Fragment::new(
        "/stores".to_string(),
        method_map(Method::Get, 2),
        StrMap::new(),
        StrMap::new(),
    );
    d.update_from_mountable(&mut b, false);
    assert_eq!(snap.paths.len(), 1);
    assert_eq!(d.paths.len(), 2);
    assert!(snap.paths.contains(&"/pets".to_string()));
    assert!(!snap.paths.contains(&"/stores".to_string()));
}

#[test]
fn normalization_pass_covers_all_path_items() {
    let mut d = Document::new();
    // mounted without the flag: left unnormalized
    let mut a = Fragment::new(
        "/a".to_string(),
        unsorted_ops(),
        StrMap::new(),
        StrMap::new(),
    );
    d.update_from_mountable(&mut a, false);
    assert_eq!(
        d.paths
            .get(&"/a".to_string())
            .unwrap()
            .methods
            .get(Method::Get)
            .unwrap()
            .parameters(),
        &vec![3, 1, 3]
    );
    // a later merge with the flag normalizes every path item in the document
    let mut b = Fragment::new(
        "/b".to_string(),
        method_map(Method::Get, 2),
        StrMap::new(),
        StrMap::new(),
    );
    d.update_from_mountable(&mut b, true);
    assert_eq!(
        d.paths
            .get(&"/a".to_string())
            .unwrap()
            .methods
            .get(Method::Get)
            .unwrap()
            .parameters(),
        &vec![1, 3]
    );
}

fn unsorted_ops() -> MethodMap {
    let mut ops = MethodMap::new();
    ops.insert(Method::Get, Operation::new(1, vec![3, 1, 3]));
    ops
}

#[test]
fn trim_collision_keeps_one_entry() {
    let mut d = Document::new();
    d.set_base_path("/api".to_string());
    let mut a = Fragment::new(
        "/api/users".to_string(),
        method_map(Method::Get, 1),
        StrMap::new(),
        StrMap::new(),
    );
    let mut b = Fragment::new(
        "/users".to_string(),
        method_map(Method::Get, 2),
        StrMap::new(),
        StrMap::new(),
    );
    d.update_from_mountable(&mut a, false);
    d.update_from_mountable(&mut b, false);
    let d = d.trim_base_path();
    // both keys collapse to "/users"; one of the two operations survives
    assert_eq!(d.paths.len(), 1);
    let body = d
        .paths
        .get(&"/users".to_string())
        .unwrap()
        .methods
        .get(Method::Get)
        .unwrap()
        .body();
    assert!(body == 1 || body == 2);
}
