use cheader::abi::abi_functions;
use cheader::abi::sort_by_signature;
use cheader::json::Json;
use cheader::text::push_decimal;
use cheader::text::push_hex_padded;
use cheader::text::text_le;

#[test]
fn json_text_escapes_strings() {
    let j = Json::Object(vec![
        ("a\"b".to_string(), Json::Array(vec![Json::Null, Json::Bool(true), Json::Number("1.5".to_string())])),
        ("c".to_string(), Json::Str("x\\y\n".to_string())),
    ]);
    assert_eq!(j.to_text(), "{\"a\\\"b\":[null,true,1.5],\"c\":\"x\\\\y\\u000a\"}");
}

#[test]
fn json_get_finds_member() {
    let j = Json::Object(vec![("k".to_string(), Json::Bool(false))]);
    assert!(matches!(j.get("k"), Some(Json::Bool(false))));
    assert!(j.get("z").is_none());
    assert!(Json::Null.get("k").is_none());
}

#[test]
fn abi_functions_read_signature_and_selector() {
    let text = "[{\"type\":\"function\",\"name\":\"transfer\",\"inputs\":[{\"name\":\"to\",\"type\":\"address\"},{\"name\":\"v\",\"type\":\"uint256\"}],\"outputs\":[{\"name\":\"\",\"type\":\"bool\"}],\"stateMutability\":\"nonpayable\"},{\"type\":\"event\",\"name\":\"E\",\"inputs\":[],\"anonymous\":false}]";
    let fs = abi_functions(text).unwrap();
    assert_eq!(fs.len(), 1);
    assert_eq!(fs[0].name, "transfer");
    assert_eq!(fs[0].input_types, vec!["address".to_string(), "uint256".to_string()]);
    assert_eq!(fs[0].signature, "transfer(address,uint256)");
    assert_eq!(fs[0].selector, 0xa9059cbb);
}

#[test]
fn abi_functions_spell_out_tuples() {
    let text = "[{\"type\":\"function\",\"name\":\"put\",\"inputs\":[{\"name\":\"p\",\"type\":\"tuple\",\"components\":[{\"name\":\"a\",\"type\":\"uint8\"},{\"name\":\"b\",\"type\":\"bytes\"}]}],\"outputs\":[],\"stateMutability\":\"nonpayable\"}]";
    let fs = abi_functions(text).unwrap();
    assert_eq!(fs[0].signature, "put((uint8,bytes))");
}

#[test]
fn abi_functions_refuse_bad_text() {
    assert!(abi_functions("{").is_none());
    assert!(abi_functions("\"x\"").is_none());
}

#[test]
fn sort_orders_by_signature() {
    let text = "[{\"type\":\"function\",\"name\":\"f\",\"inputs\":[{\"name\":\"x\",\"type\":\"uint256\"}],\"outputs\":[],\"stateMutability\":\"view\"},{\"type\":\"function\",\"name\":\"f\",\"inputs\":[{\"name\":\"x\",\"type\":\"address\"}],\"outputs\":[],\"stateMutability\":\"view\"}]";
    let fs = sort_by_signature(abi_functions(text).unwrap());
    assert_eq!(fs[0].signature, "f(address)");
    assert_eq!(fs[1].signature, "f(uint256)");
}

#[test]
fn text_order_is_lexicographic() {
    assert!(text_le("f(address)", "f(uint256)"));
    assert!(!text_le("f(uint256)", "f(address)"));
    assert!(text_le("ab", "abc"));
    assert!(!text_le("abc", "ab"));
    assert!(text_le("", ""));
}

#[test]
fn numbers_are_formatted() {
    let mut out = String::new();
    push_decimal(&mut out, 1207);
    out.push(' ');
    push_hex_padded(&mut out, 0x95ea7b3, 8);
    assert_eq!(out, "1207 095ea7b3");
}
