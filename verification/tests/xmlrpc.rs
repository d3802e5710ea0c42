use supervisor::xmlrpc::escape;
use supervisor::xmlrpc::parse_method_call;
use supervisor::xmlrpc::parse_method_response;
use supervisor::xmlrpc::read_response;
use supervisor::xmlrpc::serialize_fault;
use supervisor::xmlrpc::serialize_method_call;
use supervisor::xmlrpc::serialize_response;
use supervisor::xmlrpc::write_value;
use supervisor::xmlrpc::Response;
use supervisor::xmlrpc::Value;

#[test]
fn parses_a_method_call_with_params() {
    let xml = "<?xml version='1.0'?><methodCall><methodName>supervisor.startProcess</methodName>\
        <params><param><value><string>web</string></value></param>\
        <param><value><boolean>1</boolean></value></param></params></methodCall>";
    let (method, params) = parse_method_call(xml).unwrap();
    assert_eq!(method, "supervisor.startProcess");
    assert_eq!(params.len(), 2);
    assert_eq!(params[0], Value::Str("web".into()));
    assert_eq!(params[1], Value::Bool(true));
}

#[test]
fn parses_no_params() {
    let xml = "<methodCall><methodName>supervisor.getAllProcessInfo</methodName><params></params></methodCall>";
    let (method, params) = parse_method_call(xml).unwrap();
    assert_eq!(method, "supervisor.getAllProcessInfo");
    assert!(params.is_empty());
}

#[test]
fn untyped_value_is_a_string() {
    let xml = "<methodCall><methodName>m</methodName><params><param><value>hi</value></param></params></methodCall>";
    let (_, params) = parse_method_call(xml).unwrap();
    assert_eq!(params[0], Value::Str("hi".into()));
}

#[test]
fn round_trips_a_struct() {
    let v = Value::Struct(vec![
        ("name".into(), Value::Str("web".into())),
        ("pid".into(), Value::Int(42)),
    ]);
    let xml = serialize_response(&v);
    assert!(xml.contains("<name>name</name><value><string>web</string></value>"));
    assert!(xml.contains("<name>pid</name><value><int>42</int></value>"));
}

#[test]
fn escapes_special_characters() {
    let v = Value::Str("a < b & c".into());
    let mut out = String::new();
    write_value(&mut out, &v);
    assert!(out.contains("a &lt; b &amp; c"));
}

#[test]
fn every_value_comes_back() {
    let v = Value::Array(vec![
        Value::Int(-7),
        Value::Bool(false),
        Value::Str("<&>\"'".to_string()),
        Value::Str("".to_string()),
        Value::Double("1.5".to_string()),
        Value::Array(Vec::new()),
        Value::Struct(vec![("k".to_string(), Value::Str("  v ".to_string()))]),
    ]);
    let xml = serialize_response(&v);
    assert_eq!(parse_method_response(xml.as_str()), Ok(v));
}

#[test]
fn faults_come_back() {
    let xml = serialize_fault(10, "BAD_NAME: <web>");
    assert_eq!(
        parse_method_response(xml.as_str()),
        Err((10, "BAD_NAME: <web>".to_string()))
    );
}

#[test]
fn a_document_that_is_no_response_is_told_from_a_fault() {
    assert_eq!(
        read_response(serialize_fault(-1, "no").as_str()),
        Response::Fault(-1, "no".to_string())
    );
    assert_eq!(
        read_response(serialize_response(&Value::Int(3)).as_str()),
        Response::Value(Value::Int(3))
    );
    match read_response("not xml") {
        Response::Malformed(m) => assert!(m.starts_with("expected <methodResponse>, got ")),
        r => panic!("{:?}", r),
    }
    assert_eq!(
        read_response("<methodResponse><fault><value>x</value></fault></methodResponse>"),
        Response::Malformed("malformed fault".to_string())
    );
    match parse_method_response("not xml") {
        Err((-1, m)) => assert!(m.starts_with("expected <methodResponse>, got ")),
        r => panic!("{:?}", r),
    }
}

#[test]
fn calls_come_back() {
    let params = vec![Value::Str("a & b".to_string()), Value::Int(0)];
    let xml = serialize_method_call("supervisor.stopProcess", params.as_slice());
    let (method, back) = parse_method_call(xml.as_str()).unwrap();
    assert_eq!(method, "supervisor.stopProcess");
    assert_eq!(back, params);
}

#[test]
fn other_types_are_understood() {
    let value = |inner: &str| {
        let xml = format!(
            "<methodCall><methodName>m</methodName><params><param><value>{inner}</value></param></params></methodCall>"
        );
        parse_method_call(xml.as_str()).map(|(_, mut p)| p.remove(0))
    };
    assert_eq!(value("<i4> 5 </i4>"), Ok(Value::Int(5)));
    assert_eq!(value("<i8>-5</i8>"), Ok(Value::Int(-5)));
    assert_eq!(value("<boolean>0</boolean>"), Ok(Value::Bool(false)));
    assert_eq!(value("<double>2.5</double>"), Ok(Value::Double("2.5".to_string())));
    assert_eq!(value("<nil/>"), Ok(Value::Str("".to_string())));
    assert_eq!(value("<base64>aGk=</base64>"), Ok(Value::Str("hi".to_string())));
    assert_eq!(value("<base64> w6lh\n 4oKs </base64>"), Ok(Value::Str("\u{e9}a\u{20ac}".to_string())));
    assert_eq!(value("<base64></base64>"), Ok(Value::Str("".to_string())));
    assert_eq!(value("<base64>a*b=</base64>"), Err("bad base64".to_string()));
    assert_eq!(value("<base64>/w==</base64>"), Err("bad base64".to_string()));
    assert!(value("<int>x</int>").is_err());
    assert!(value("<strange>1</strange>").is_err());
}

#[test]
fn malformed_calls_are_refused() {
    assert!(parse_method_call("").is_err());
    assert!(parse_method_call("<methodCall><params></params></methodCall>").is_err());
    let e = parse_method_call("<wrong>").unwrap_err();
    assert!(e.contains("Some(Open(\"wrong\"))"));
}

#[test]
fn entities_are_written_once() {
    assert_eq!(escape("a&lt;b"), "a&amp;lt;b");
    assert_eq!(escape("plain"), "plain");
}

#[test]
fn values_show_their_content() {
    assert_eq!(Value::Str("s".to_string()).as_str(), Some("s"));
    assert_eq!(Value::Int(1).as_str(), None);
    assert_eq!(Value::Bool(true).as_bool(), Some(true));
    assert_eq!(Value::Int(1).as_bool(), Some(true));
    assert_eq!(Value::Int(0).as_bool(), Some(false));
    assert_eq!(Value::Str("1".to_string()).as_bool(), None);
}
