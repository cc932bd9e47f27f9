use pu_239::api::{build_api, Root};
use pu_239::ast::{FileContent, FnDecl, FsDir, FsEntry, Item, Param, SourceUnit};
use pu_239::dispatch::{encode_request, find_arm, read_ident, route, DispatchError};
use pu_239::ident::{encode_decl, endpoint_id, quick_hash};
use pu_239::resolve::resolve_root;
use pu_239::surface::{has_endpoints, server, total_fns, write_out};

fn b(s: &str) -> Vec<u8> {
    s.as_bytes().to_vec()
}

fn marker() -> Vec<u8> {
    b("pu_239::server")
}

fn decl(name: &str, params: &[(&str, &str)], ret: Option<&str>, body: &str) -> FnDecl {
    FnDecl {
        name: b(name),
        attrs: vec![marker()],
        receiver: false,
        params: params.iter().map(|(p, t)| Param { pat: b(p), ty: b(t) }).collect(),
        ret: ret.map(b),
        body: b(body),
    }
}

fn stripped(name: &str, params: &[(&str, &str)], ret: Option<&str>, body: &str) -> FnDecl {
    let mut d = decl(name, params, ret, body);
    d.attrs = vec![];
    d
}

fn unit(items: Vec<Item>) -> SourceUnit {
    SourceUnit { items }
}

fn file(name: &str, u: SourceUnit) -> FsEntry {
    FsEntry::File { name: b(name), content: FileContent::Parsed(u) }
}

fn fnv(bytes: &[u8]) -> u64 {
    let mut h: u64 = 0xcbf29ce484222325;
    for &x in bytes {
        h = (((h ^ (x as u64)) as u128 * 0x100000001b3u128) & 0xFFFF_FFFF_FFFF_FFFF) as u64;
    }
    h
}

#[test]
fn quick_hash_of_empty_is_the_basis() {
    assert_eq!(quick_hash(&vec![]), 0xcbf29ce484222325);
}

#[test]
fn quick_hash_matches_the_fold_and_is_order_sensitive() {
    assert_eq!(quick_hash(&b("abc")), fnv(b"abc"));
    assert_eq!(quick_hash(&b("remote call")), fnv(b"remote call"));
    assert_ne!(quick_hash(&b("ab")), quick_hash(&b("ba")));
}

#[test]
fn identifier_is_deterministic() {
    let d1 = stripped("f", &[("x", "u64")], Some("u64"), "{ x }");
    let d2 = stripped("f", &[("x", "u64")], Some("u64"), "{ x }");
    assert_eq!(endpoint_id(&d1), endpoint_id(&d2));
    assert_eq!(encode_decl(&d1), encode_decl(&d2));
    // Any structural difference must reach the identifier input.
    let other_body = stripped("f", &[("x", "u64")], Some("u64"), "{ x + 1 }");
    assert_ne!(encode_decl(&d1), encode_decl(&other_body));
}

#[test]
fn stub_and_arm_agree_on_the_identifier() {
    let d = stripped("echo", &[("x", "u64")], Some("u64"), "{ x }");
    let marked = decl("echo", &[("x", "u64")], Some("u64"), "{ x }");
    let root = unit(vec![Item::Mod {
        name: b("api"),
        meta: vec![],
        inline: Some(unit(vec![Item::Fn(marked)])),
    }]);
    let dir = FsDir { entries: vec![file("root.rs", root)] };
    let api = build_api(&marker(), &vec![Root { dir, file: b("root.rs") }]).unwrap();
    // The stub generated by the in-place rewrite (marker already stripped).
    let stub = server(&d).unwrap();
    assert_eq!(api.arms.len(), 1);
    assert_eq!(api.arms[0].id, stub.id);
    assert_eq!(api.arms[0].id, endpoint_id(&d));
    assert_eq!(api.modules[0].stubs[0].id, stub.id);
}

#[test]
fn server_wraps_missing_return_type_in_unit() {
    let d = stripped("ping", &[], None, "{}");
    let stub = server(&d).unwrap();
    assert_eq!(stub.ret, b("()"));
    assert_eq!(stub.name, b("ping"));
    let with_ret = stripped("get", &[], Some("String"), "{ s }");
    assert_eq!(server(&with_ret).unwrap().ret, b("String"));
}

#[test]
fn server_rejects_receiver() {
    let mut d = stripped("m", &[], None, "{}");
    d.receiver = true;
    assert!(server(&d).is_err());
}

#[test]
fn ordering_of_endpoints_is_preserved() {
    let root = unit(vec![
        Item::Fn(decl("f1", &[], None, "{}")),
        Item::Fn(decl("f2", &[], None, "{}")),
        Item::Fn(decl("f3", &[], None, "{}")),
    ]);
    let dir = FsDir { entries: vec![file("root.rs", root)] };
    let node = resolve_root(&marker(), &dir, &b("root.rs")).unwrap();
    let (stubs, _) = write_out(&node);
    let names: Vec<Vec<u8>> = stubs.iter().map(|s| s.name.clone()).collect();
    assert_eq!(names, vec![b("f1"), b("f2"), b("f3")]);
    let mut arms = Vec::new();
    pu_239::dispatch::write_arms(&node, &Vec::new(), &mut arms);
    assert_eq!(arms.len(), 3);
    assert_eq!(arms[0].path, vec![b("f1")]);
    assert_eq!(arms[1].path, vec![b("f2")]);
    assert_eq!(arms[2].path, vec![b("f3")]);
}

#[test]
fn empty_subtrees_are_pruned_from_the_surface() {
    let root = unit(vec![
        Item::Mod {
            name: b("quiet"),
            meta: vec![],
            inline: Some(unit(vec![Item::Other])),
        },
        Item::Mod {
            name: b("busy"),
            meta: vec![],
            inline: Some(unit(vec![Item::Fn(decl("f", &[], None, "{}"))])),
        },
    ]);
    let dir = FsDir { entries: vec![file("root.rs", root)] };
    let node = resolve_root(&marker(), &dir, &b("root.rs")).unwrap();
    assert!(has_endpoints(&node));
    assert_eq!(total_fns(&node), 1);
    let (_, modules) = write_out(&node);
    assert_eq!(modules.len(), 1);
    assert_eq!(modules[0].name, b("busy"));
}

#[test]
fn nesting_is_preserved_in_surface_and_flattened_in_arms() {
    let root = unit(vec![Item::Mod {
        name: b("outer"),
        meta: vec![],
        inline: Some(unit(vec![Item::Mod {
            name: b("inner"),
            meta: vec![],
            inline: Some(unit(vec![Item::Fn(decl("deep", &[], None, "{}"))])),
        }])),
    }]);
    let dir = FsDir { entries: vec![file("root.rs", root)] };
    let api = build_api(&marker(), &vec![Root { dir, file: b("root.rs") }]).unwrap();
    assert_eq!(api.modules.len(), 1);
    assert_eq!(api.modules[0].name, b("outer"));
    assert_eq!(api.modules[0].children[0].name, b("inner"));
    assert_eq!(api.modules[0].children[0].stubs[0].name, b("deep"));
    assert_eq!(api.arms.len(), 1);
    assert_eq!(api.arms[0].path, vec![b("outer"), b("inner"), b("deep")]);
}

#[test]
fn multi_root_merge_routes_both_roots() {
    let root_a = unit(vec![Item::Mod {
        name: b("root_a"),
        meta: vec![],
        inline: Some(unit(vec![Item::Fn(decl("ping", &[], None, "{}"))])),
    }]);
    let root_b = unit(vec![Item::Mod {
        name: b("root_b"),
        meta: vec![],
        inline: Some(unit(vec![Item::Fn(decl(
            "echo",
            &[("x", "i64")],
            Some("i64"),
            "{ x }",
        ))])),
    }]);
    let roots = vec![
        Root { dir: FsDir { entries: vec![file("a.rs", root_a)] }, file: b("a.rs") },
        Root { dir: FsDir { entries: vec![file("b.rs", root_b)] }, file: b("b.rs") },
    ];
    let api = build_api(&marker(), &roots).unwrap();
    assert_eq!(api.arms.len(), 2);
    assert_eq!(api.modules.len(), 2);
    assert_eq!(api.modules[0].name, b("root_a"));
    assert_eq!(api.modules[1].name, b("root_b"));
    let ping_id = api.modules[0].stubs[0].id;
    let echo_id = api.modules[1].stubs[0].id;
    assert_ne!(ping_id, echo_id);
    let hit = find_arm(&api.arms, ping_id).unwrap();
    assert_eq!(api.arms[hit].path, vec![b("root_a"), b("ping")]);
    let hit = find_arm(&api.arms, echo_id).unwrap();
    assert_eq!(api.arms[hit].path, vec![b("root_b"), b("echo")]);
}

#[test]
fn unknown_identifier_is_a_recoverable_error() {
    let root = unit(vec![Item::Fn(decl("only", &[], None, "{}"))]);
    let dir = FsDir { entries: vec![file("root.rs", root)] };
    let api = build_api(&marker(), &vec![Root { dir, file: b("root.rs") }]).unwrap();
    let known = api.arms[0].id;
    let unknown = known.wrapping_add(1);
    let buf = encode_request(unknown, &vec![]);
    let err = route(&api.arms, &buf).unwrap_err();
    assert_eq!(err, DispatchError::UnknownMethod { id: unknown });
    assert!(route(&api.arms, &buf.clone()).is_err());
}

#[test]
fn truncated_request_is_a_recoverable_error() {
    let arms = Vec::new();
    let buf = vec![1u8, 2, 3];
    assert_eq!(route(&arms, &buf).unwrap_err(), DispatchError::Truncated);
    assert_eq!(read_ident(&buf).unwrap_err(), DispatchError::Truncated);
}

#[test]
fn request_framing_round_trips() {
    let payload = b("the argument tuple bytes");
    let buf = encode_request(0x0123_4567_89ab_cdef, &payload);
    assert_eq!(buf.len(), 8 + payload.len());
    assert_eq!(read_ident(&buf).unwrap(), 0x0123_4567_89ab_cdef);
    let empty = encode_request(7, &vec![]);
    assert_eq!(read_ident(&empty).unwrap(), 7);
    assert_eq!(empty.len(), 8);
}

#[test]
fn round_trip_through_dispatch_matches_direct_invocation() {
    // The scenario behind the generated code: the client stub packs the
    // identifier and the postcard-encoded argument tuple; the dispatch entry
    // point routes on the identifier, decodes the arguments, invokes the
    // local implementation, and encodes the result with the same codec.
    fn add_one(x: u64) -> u64 {
        x + 1
    }
    let d = stripped("add_one", &[("x", "u64")], Some("u64"), "{ x + 1 }");
    let marked = decl("add_one", &[("x", "u64")], Some("u64"), "{ x + 1 }");
    let root = unit(vec![Item::Fn(marked)]);
    let dir = FsDir { entries: vec![file("root.rs", root)] };
    let api = build_api(&marker(), &vec![Root { dir, file: b("root.rs") }]).unwrap();

    // Client side: the stub packs identifier and arguments.
    let stub = server(&d).unwrap();
    let args = (41u64,);
    let payload = postcard::to_stdvec(&args).unwrap();
    let request = encode_request(stub.id, &payload);

    // Server side: route, decode, invoke, encode.
    let (arm, rest) = route(&api.arms, &request).unwrap();
    assert_eq!(arm.path, vec![b("add_one")]);
    assert_eq!(arm.pats, vec![b("x")]);
    let (x,): (u64,) = postcard::from_bytes(&rest).unwrap();
    let response = postcard::to_stdvec(&add_one(x)).unwrap();

    // Client side again: the decoded result equals direct invocation.
    let result: u64 = postcard::from_bytes(&response).unwrap();
    assert_eq!(result, add_one(41));
}

#[test]
fn find_arm_picks_the_first_match() {
    let mk = |id: u64, tag: &str| pu_239::dispatch::DispatchArm {
        id,
        path: vec![b(tag)],
        pats: vec![],
    };
    let arms = vec![mk(9, "first"), mk(9, "second"), mk(3, "third")];
    let hit = find_arm(&arms, 9).unwrap();
    assert_eq!(hit, 0);
    assert_eq!(arms[hit].path, vec![b("first")]);
    assert!(find_arm(&arms, 4).is_none());
}

#[test]
fn crate_root_exports_generate_consistently() {
    let d = stripped("ping", &[], None, "{}");
    let stub = pu_239::server(&d).unwrap();
    let root = unit(vec![Item::Fn(decl("ping", &[], None, "{}"))]);
    let dir = FsDir { entries: vec![file("root.rs", root)] };
    let api = pu_239::build_api(&marker(), &vec![Root { dir, file: b("root.rs") }]).unwrap();
    assert_eq!(api.arms[0].id, stub.id);
}
