use cheader::emit::generate;
use cheader::emit::Generation;
use cheader::emit::GenerateError;
use cheader::json::Json;

fn s(t: &str) -> String {
    t.to_string()
}

fn obj(entries: Vec<(&str, Json)>) -> Json {
    Json::Object(entries.into_iter().map(|(k, v)| (s(k), v)).collect())
}

fn function(name: &str, types: &[&str]) -> Json {
    let inputs = types
        .iter()
        .enumerate()
        .map(|(i, t)| obj(vec![("name", Json::Str(format!("a{}", i))), ("type", Json::Str(s(t)))]))
        .collect();
    obj(vec![
        ("type", Json::Str(s("function"))),
        ("name", Json::Str(s(name))),
        ("inputs", Json::Array(inputs)),
        ("outputs", Json::Array(vec![])),
        ("stateMutability", Json::Str(s("nonpayable"))),
    ])
}

fn event(name: &str) -> Json {
    obj(vec![
        ("type", Json::Str(s("event"))),
        ("name", Json::Str(s(name))),
        ("inputs", Json::Array(vec![])),
        ("anonymous", Json::Bool(false)),
    ])
}

fn storage_entry(label: &str, slot: &str, offset: Option<&str>) -> Json {
    let mut e = vec![("label", Json::Str(s(label))), ("slot", Json::Str(s(slot)))];
    if let Some(o) = offset {
        e.push(("offset", Json::Number(s(o))));
    }
    obj(e)
}

fn document(file: &str, contract: &str, props: Json) -> Json {
    obj(vec![("contracts", obj(vec![(file, obj(vec![(contract, props)]))]))])
}

fn run(doc: &Json) -> Generation {
    match generate(doc) {
        Ok(g) => g,
        Err(_) => panic!("document refused"),
    }
}

#[test]
fn overloads_named_in_signature_order() {
    let abi = Json::Array(vec![function("f", &["uint256"]), function("f", &["address"])]);
    let g = run(&document("C.sol", "C", obj(vec![("abi", abi)])));
    assert_eq!(g.files.len(), 2);
    let header = &g.files[0].contents;
    let a = header.find("#define SELECTOR_f 0x").unwrap();
    let b = header.find("#define SELECTOR_f_1 0x").unwrap();
    assert!(a < b);
    assert!(header.contains("ArbResult f(uint8_t *input, size_t len); // f(address)\n"));
    assert!(header.contains("ArbResult f_1(uint8_t *input, size_t len); // f(uint256)\n"));
    let router = &g.files[1].contents;
    let first = router.find("    if (selector==SELECTOR_f) return f(input, len);\n").unwrap();
    let second = router.find("    if (selector==SELECTOR_f_1) return f_1(input, len);\n").unwrap();
    assert!(first < second);
}

#[test]
fn selector_is_the_standard_hash_prefix() {
    let abi = Json::Array(vec![function("approve", &["address", "uint256"])]);
    let g = run(&document("T.sol", "T", obj(vec![("abi", abi)])));
    assert!(g.files[0]
        .contents
        .contains("#define SELECTOR_approve 0x095ea7b3 // approve(address,uint256)\n"));
}

#[test]
fn events_only_give_no_files() {
    let abi = Json::Array(vec![event("Transfer"), event("Approval")]);
    let g = run(&document("E.sol", "E", obj(vec![("abi", abi)])));
    assert!(g.files.is_empty());
}

#[test]
fn storage_entry_without_offset_is_skipped_alone() {
    let storage = Json::Array(vec![
        storage_entry("owner", "0", Some("0")),
        storage_entry("broken", "1", None),
        storage_entry("total", "2", Some("20")),
    ]);
    let props = obj(vec![("storageLayout", obj(vec![("storage", storage)]))]);
    let g = run(&document("S.sol", "S", props));
    assert_eq!(g.files.len(), 1);
    assert_eq!(g.files[0].name, "S.h");
    let header = &g.files[0].contents;
    assert!(header.contains(
        "#define STORAGE_SLOT_owner 0\n#define STORAGE_OFFSET_owner 0\n#define STORAGE_SLOT_total 2\n#define STORAGE_OFFSET_total 20\n"
    ));
    assert!(!header.contains("broken"));
    assert!(!g.diagnostics.is_empty());
}

#[test]
fn document_without_contracts_is_refused() {
    let doc = obj(vec![("sources", obj(vec![]))]);
    assert!(matches!(generate(&doc), Err(GenerateError::MissingContracts)));
    let doc = obj(vec![("contracts", Json::Array(vec![]))]);
    assert!(matches!(generate(&doc), Err(GenerateError::MissingContracts)));
}

#[test]
fn files_land_under_source_file_directory() {
    let abi = Json::Array(vec![function("mint", &["uint256"])]);
    let g = run(&document("Token.sol", "Token", obj(vec![("abi", abi)])));
    assert_eq!(g.files.len(), 2);
    assert_eq!(g.files[0].dir, "Token.sol");
    assert_eq!(g.files[0].name, "Token.h");
    assert_eq!(g.files[1].dir, "Token.sol");
    assert_eq!(g.files[1].name, "Token_main.c");
    assert!(g.files[0].contents.contains("#ifndef __TOKEN.SOL_TOKEN_\n"));
    assert!(g.files[1].contents.contains("ArbResult Token_entry(uint8_t *input, size_t len) {\n"));
    assert!(g.files[1].contents.contains("ENTRYPOINT(Token_entry)\n"));
}

#[test]
fn same_input_gives_same_output() {
    let abi = Json::Array(vec![
        function("g", &[]),
        function("f", &["uint256"]),
        function("f", &["address"]),
        event("E"),
    ]);
    let storage = Json::Array(vec![storage_entry("x", "0", Some("0"))]);
    let props = obj(vec![("abi", abi), ("storageLayout", obj(vec![("storage", storage)]))]);
    let doc = document("A.sol", "A", props);
    let a = run(&doc);
    let b = run(&doc);
    assert_eq!(a.files.len(), b.files.len());
    for (x, y) in a.files.iter().zip(b.files.iter()) {
        assert_eq!(x.dir, y.dir);
        assert_eq!(x.name, y.name);
        assert_eq!(x.contents, y.contents);
    }
}

#[test]
fn order_of_abi_entries_does_not_matter() {
    let one = Json::Array(vec![function("f", &["uint256"]), function("f", &["address"]), function("a", &[])]);
    let two = Json::Array(vec![function("a", &[]), function("f", &["address"]), function("f", &["uint256"])]);
    let a = run(&document("A.sol", "A", obj(vec![("abi", one)])));
    let b = run(&document("A.sol", "A", obj(vec![("abi", two)])));
    assert_eq!(a.files[0].contents, b.files[0].contents);
    assert_eq!(a.files[1].contents, b.files[1].contents);
}

#[test]
fn header_text_is_exact() {
    let abi = Json::Array(vec![function("get", &[])]);
    let storage = Json::Array(vec![storage_entry("n", "3", Some("1"))]);
    let props = obj(vec![("abi", abi), ("storageLayout", obj(vec![("storage", storage)]))]);
    let g = run(&document("c.sol", "c", props));
    let expected = " // Stylus contract bindings\n#ifndef __C.SOL_C_\n#define __C.SOL_C_\n\n#in\
clude <stylus.h>\n\n#ifdef __cplusplus\nex\
tern \"C\" {\n#endif\n\n#define SELECTOR_get 0x6d4ce63c // get()\nArbResult get(uint8_t *input, size_t len); // get()\n\n#define STORAGE_SLOT_n 3\n#define STORAGE_OFFSET_n 1\n\n\n#ifdef __cplusplus\n}\n#endif\n\n#endif // __C.SOL_C_\n";
    assert_eq!(g.files[0].contents, expected);
}

#[test]
fn router_text_is_exact() {
    let abi = Json::Array(vec![function("get", &[])]);
    let g = run(&document("c.sol", "c", obj(vec![("abi", abi)])));
    let expected = " // Stylus contract bindings\n\n#in\
clude \"c.h\"\n#in\
clude <stylus.h>\n#in\
clude <bebi.h>\n\nArbResult c_entry(uint8_t *input, size_t len) {\n    ArbResult err = {Failure, 0, 0};\n    if (len < 4) {\n        return err;\n    }\n    uint32_t selector = bebi_get_u32(input, 0);\n    input +=4;\n    len -=4;\n    if (selector==SELECTOR_get) return get(input, len);\n\n    return err;\n}\n\nENTRYPOINT(c_entry)\n";
    assert_eq!(g.files[1].name, "c_main.c");
    assert_eq!(g.files[1].contents, expected);
}

#[test]
fn storage_only_contract_has_no_router() {
    let storage = Json::Array(vec![storage_entry("x", "0", Some("0"))]);
    let g = run(&document("S.sol", "S", obj(vec![("storageLayout", obj(vec![("storage", storage)]))])));
    assert_eq!(g.files.len(), 1);
    assert_eq!(g.files[0].name, "S.h");
}

#[test]
fn invalid_abi_is_skipped() {
    let abi = Json::Str(s("not an abi"));
    let g = run(&document("B.sol", "B", obj(vec![("abi", abi)])));
    assert!(g.files.is_empty());
    assert!(!g.diagnostics.is_empty());
}

#[test]
fn non_object_entries_are_skipped() {
    let doc = obj(vec![(
        "contracts",
        obj(vec![
            ("X.sol", Json::Null),
            ("Y.sol", obj(vec![("Y", Json::Bool(true)), ("Z", obj(vec![("abi", Json::Array(vec![function("z", &[])]))]))])),
        ]),
    )]);
    let g = run(&doc);
    assert_eq!(g.files.len(), 2);
    assert_eq!(g.files[0].name, "Z.h");
    assert_eq!(g.diagnostics.len(), 3);
}

#[test]
fn tenth_overload_gets_two_digit_suffix() {
    let types = ["uint8", "uint16", "uint24", "uint32", "uint40", "uint48", "uint56", "uint64", "uint72", "uint80", "uint88"];
    let abi = Json::Array(types.iter().map(|t| function("h", &[t])).collect());
    let g = run(&document("H.sol", "H", obj(vec![("abi", abi)])));
    assert!(g.files[1].contents.contains("SELECTOR_h_10) return h_10(input, len);\n"));
}

#[test]
fn empty_contracts_object_gives_no_files() {
    let g = run(&obj(vec![("contracts", obj(vec![]))]));
    assert!(g.files.is_empty());
    assert!(g.diagnostics.is_empty());
}

#[test]
fn missing_abi_is_reported() {
    let storage = Json::Array(vec![storage_entry("v", "5", Some("4"))]);
    let g = run(&document("M.sol", "M", obj(vec![("storageLayout", obj(vec![("storage", storage)]))])));
    assert_eq!(g.diagnostics.len(), 1);
    assert_eq!(g.diagnostics[0].path, vec![s("M.sol"), s("M"), s("abi")]);
    assert_eq!(g.files[0].contents.matches("#define STORAGE_").count(), 2);
}

#[test]
fn storage_that_is_not_an_array_is_skipped() {
    let props = obj(vec![("storageLayout", obj(vec![("storage", Json::Str(s("x")))]))]);
    let g = run(&document("N.sol", "N", props));
    assert!(g.files.is_empty());
    assert!(g
        .diagnostics
        .iter()
        .any(|d| d.path == vec![s("N.sol"), s("N"), s("storageLayout"), s("storage")]));
}

#[test]
fn duplicate_storage_labels_both_emit() {
    let storage = Json::Array(vec![storage_entry("x", "0", Some("0")), storage_entry("x", "1", Some("0"))]);
    let g = run(&document("D.sol", "D", obj(vec![("storageLayout", obj(vec![("storage", storage)]))])));
    assert_eq!(g.files[0].contents.matches("#define STORAGE_SLOT_x ").count(), 2);
}
