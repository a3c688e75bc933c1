use apispec::{Document, Fragment, Method, MethodMap, Operation, Schema, SecurityScheme, StrMap};

fn op(body: u64) -> Operation {
    Operation::new(body, Vec::new())
}

fn ops_of(entries: &[(Method, u64)]) -> MethodMap {
    let mut m = MethodMap::new();
    for (method, body) in entries {
        m.insert(*method, op(*body));
    }
    m
}

fn defs_of(entries: &[(&str, u64)]) -> StrMap<Schema> {
    let mut m = StrMap::new();
    for (name, body) in entries {
        m.insert(name.to_string(), Schema::new(*body));
    }
    m
}

fn fragment(path: &str, ops: MethodMap, defs: StrMap<Schema>) -> Fragment {
    Fragment::new(path.to_string(), ops, defs, StrMap::new())
}

#[test]
fn disjoint_paths_union() {
    let mut d = Document::new();
    let mut a = fragment("/pets", ops_of(&[(Method::Get, 1)]), StrMap::new());
    let mut b = fragment("/stores", ops_of(&[(Method::Get, 2)]), StrMap::new());
    d.update_from_mountable(&mut a, false);
    d.update_from_mountable(&mut b, false);
    assert_eq!(d.paths.len(), 2);
    assert!(d.paths.contains(&"/pets".to_string()));
    assert!(d.paths.contains(&"/stores".to_string()));
}

#[test]
fn disjoint_paths_order_independent() {
    let mut d1 = Document::new();
    let mut a1 = fragment("/pets", ops_of(&[(Method::Get, 1)]), StrMap::new());
    let mut b1 = fragment("/stores", ops_of(&[(Method::Post, 2)]), StrMap::new());
    d1.update_from_mountable(&mut a1, false);
    d1.update_from_mountable(&mut b1, false);

    let mut d2 = Document::new();
    let mut a2 = fragment("/pets", ops_of(&[(Method::Get, 1)]), StrMap::new());
    let mut b2 = fragment("/stores", ops_of(&[(Method::Post, 2)]), StrMap::new());
    d2.update_from_mountable(&mut b2, false);
    d2.update_from_mountable(&mut a2, false);

    for d in [&d1, &d2] {
        assert_eq!(d.paths.len(), 2);
        let pets = d.paths.get(&"/pets".to_string()).unwrap();
        assert_eq!(pets.methods.get(Method::Get).unwrap().body(), 1);
        let stores = d.paths.get(&"/stores".to_string()).unwrap();
        assert_eq!(stores.methods.get(Method::Post).unwrap().body(), 2);
    }
}

#[test]
fn same_path_disjoint_methods_union() {
    let mut d = Document::new();
    let mut a = fragment("/pets", ops_of(&[(Method::Get, 1)]), StrMap::new());
    let mut b = fragment("/pets", ops_of(&[(Method::Post, 2)]), StrMap::new());
    d.update_from_mountable(&mut a, false);
    d.update_from_mountable(&mut b, false);
    assert_eq!(d.paths.len(), 1);
    let item = d.paths.get(&"/pets".to_string()).unwrap();
    assert_eq!(item.methods.len(), 2);
    assert_eq!(item.methods.get(Method::Get).unwrap().body(), 1);
    assert_eq!(item.methods.get(Method::Post).unwrap().body(), 2);
}

#[test]
fn same_path_same_method_last_wins() {
    let mut d = Document::new();
    let mut a = fragment("/pets", ops_of(&[(Method::Get, 1)]), StrMap::new());
    let mut b = fragment("/pets", ops_of(&[(Method::Get, 2)]), StrMap::new());
    d.update_from_mountable(&mut a, false);
    d.update_from_mountable(&mut b, false);
    let item = d.paths.get(&"/pets".to_string()).unwrap();
    assert_eq!(item.methods.len(), 1);
    assert_eq!(item.methods.get(Method::Get).unwrap().body(), 2);
}

#[test]
fn two_contributors_scenario() {
    let mut d = Document::new();
    let mut a = fragment(
        "/pets",
        ops_of(&[(Method::Get, 10)]),
        defs_of(&[("Pet", 100)]),
    );
    let mut b = fragment(
        "/pets",
        ops_of(&[(Method::Post, 20)]),
        defs_of(&[("NewPet", 200)]),
    );
    d.update_from_mountable(&mut a, false);
    d.update_from_mountable(&mut b, false);

    let item = d.paths.get(&"/pets".to_string()).unwrap();
    assert_eq!(item.methods.len(), 2);
    assert_eq!(item.methods.get(Method::Get).unwrap().body(), 10);
    assert_eq!(item.methods.get(Method::Post).unwrap().body(), 20);

    assert_eq!(d.definitions.len(), 2);
    assert_eq!(d.definitions.get(&"Pet".to_string()).unwrap().body, 100);
    assert_eq!(d.definitions.get(&"NewPet".to_string()).unwrap().body, 200);
}

#[test]
fn schema_name_collision_last_wins() {
    let mut d = Document::new();
    let mut a = fragment("/a", ops_of(&[(Method::Get, 1)]), defs_of(&[("Error", 1)]));
    let mut b = fragment("/b", ops_of(&[(Method::Get, 2)]), defs_of(&[("Error", 2)]));
    d.update_from_mountable(&mut a, false);
    d.update_from_mountable(&mut b, false);
    assert_eq!(d.definitions.len(), 1);
    assert_eq!(d.definitions.get(&"Error".to_string()).unwrap().body, 2);
}

#[test]
fn security_definitions_merge_total() {
    let mut d = Document::new();
    let mut secs_a = StrMap::new();
    secs_a.insert("oauth".to_string(), SecurityScheme::new(1));
    let mut secs_b = StrMap::new();
    secs_b.insert("oauth".to_string(), SecurityScheme::new(2));
    secs_b.insert("apiKey".to_string(), SecurityScheme::new(3));
    let mut a = Fragment::new(
        "/a".to_string(),
        ops_of(&[(Method::Get, 1)]),
        StrMap::new(),
        secs_a,
    );
    let mut b = Fragment::new(
        "/b".to_string(),
        ops_of(&[(Method::Get, 2)]),
        StrMap::new(),
        secs_b,
    );
    d.update_from_mountable(&mut a, false);
    d.update_from_mountable(&mut b, false);
    assert_eq!(d.security_definitions.len(), 2);
    assert_eq!(
        d.security_definitions.get(&"oauth".to_string()).unwrap().body,
        2
    );
    assert_eq!(
        d.security_definitions.get(&"apiKey".to_string()).unwrap().body,
        3
    );
}

#[test]
fn empty_document_is_valid() {
    let d = Document::new();
    assert_eq!(d.paths.len(), 0);
    assert_eq!(d.definitions.len(), 0);
    assert_eq!(d.security_definitions.len(), 0);
    assert!(d.base_path.is_none());
    let t = d.translate();
    assert_eq!(t.paths.len(), 0);
    assert!(t.server_url.is_none());
}

#[test]
fn update_operations_extends_existing_item() {
    let mut map = StrMap::new();
    let mut a = fragment("/pets", ops_of(&[(Method::Get, 1)]), StrMap::new());
    apispec::Mountable::update_operations(&mut a, &mut map);
    let mut b = fragment("/pets", ops_of(&[(Method::Put, 9)]), StrMap::new());
    apispec::Mountable::update_operations(&mut b, &mut map);
    let item = map.get(&"/pets".to_string()).unwrap();
    assert_eq!(item.methods.len(), 2);
    assert_eq!(item.methods.get(Method::Get).unwrap().body(), 1);
    assert_eq!(item.methods.get(Method::Put).unwrap().body(), 9);
}
