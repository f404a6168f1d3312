//! `package.json`, against a reader that serde drives field by field.

use std::fmt;

use pudu::json::Json;
use pudu::manifest::{list_manifest, parse_manifest, retell, take_field};
use serde::de::{Deserialize, Deserializer, Error, IgnoredAny, MapAccess, SeqAccess, Visitor};
use serde_json::Value;

/// The three fields, as a struct would be read.
#[derive(Debug, Default, PartialEq)]
struct Manifest {
    bin: Value,
    directories: Value,
    scripts: Value,
}

struct ManifestVisitor;

impl<'de> Visitor<'de> for ManifestVisitor {
    type Value = Manifest;

    fn expecting(&self, f: &mut fmt::Formatter<'_>) -> fmt::Result {
        f.write_str("struct Manifest")
    }

    fn visit_seq<A: SeqAccess<'de>>(self, mut seq: A) -> Result<Manifest, A::Error> {
        Ok(Manifest {
            bin: seq.next_element()?.unwrap_or_default(),
            directories: seq.next_element()?.unwrap_or_default(),
            scripts: seq.next_element()?.unwrap_or_default(),
        })
    }

    fn visit_map<A: MapAccess<'de>>(self, mut map: A) -> Result<Manifest, A::Error> {
        let (mut bin, mut directories, mut scripts) = (None, None, None);
        while let Some(name) = map.next_key::<String>()? {
            let (slot, field) = match name.as_str() {
                "bin" => (&mut bin, "bin"),
                "directories" => (&mut directories, "directories"),
                "scripts" => (&mut scripts, "scripts"),
                _ => {
                    map.next_value::<IgnoredAny>()?;
                    continue;
                }
            };
            if slot.is_some() {
                return Err(A::Error::duplicate_field(field));
            }
            *slot = Some(map.next_value::<Value>()?);
        }
        Ok(Manifest {
            bin: bin.unwrap_or_default(),
            directories: directories.unwrap_or_default(),
            scripts: scripts.unwrap_or_default(),
        })
    }
}

impl<'de> Deserialize<'de> for Manifest {
    fn deserialize<D: Deserializer<'de>>(d: D) -> Result<Self, D::Error> {
        d.deserialize_struct("Manifest", &["bin", "directories", "scripts"], ManifestVisitor)
    }
}

fn json(v: &Value) -> Json {
    match v {
        Value::Null => Json::Null,
        Value::Bool(b) => Json::Bool(*b),
        Value::Number(n) => Json::Number(n.to_string()),
        Value::String(s) => Json::Text(s.clone()),
        Value::Array(a) => Json::List(a.iter().map(json).collect()),
        Value::Object(m) => Json::Object(m.iter().map(|(k, v)| (k.clone(), json(v))).collect()),
    }
}

fn agree(text: &str) {
    let want = serde_json::from_str::<Manifest>(text).map_err(|e| e.to_string());
    match (parse_manifest(text), want) {
        (Ok(got), Ok(m)) => {
            for (name, v) in [
                ("bin", &m.bin),
                ("directories", &m.directories),
                ("scripts", &m.scripts),
            ] {
                let got = got.get(name).unwrap_or(&Json::Null);
                assert_eq!(got, &json(v), "{name} of {text:?}");
            }
        }
        (Err(got), Err(want)) => assert_eq!(got, want, "{text:?}"),
        (got, want) => panic!("{text:?}: {got:?} for {want:?}"),
    }
}

fn nested(n: usize) -> String {
    format!("{}{}", "[".repeat(n), "]".repeat(n))
}

#[test]
fn manifests_that_are_read() {
    for text in [
        "{}",
        " \t\r\n{ }\n",
        r#"{"bin":"cli.js"}"#,
        r#"{"name":"p","bin":{"a":"b","a":"c"},"directories":{"bin":"x"},"scripts":{"install":"y"}}"#,
        r#"{"b\u0069n":1}"#,
        "{\n  \"x\" : 1e999 ,\n  \"scripts\"\n:\n{} , \"y\":\"\\ud800\"}",
        r#"{"x":1,"x":2,"bin":null}"#,
        r#"{"é":"ü","bin":"日本"}"#,
        "[]",
        "[1]",
        r#"["a",{"bin":"b"},{}]"#,
    ] {
        assert!(serde_json::from_str::<Manifest>(text).is_ok(), "{text:?}");
        agree(text);
    }
    agree(&format!(r#"{{"x":{},"bin":1}}"#, nested(300)));
}

#[test]
fn nesting_is_limited_where_a_field_is_read() {
    for n in 120..132 {
        agree(&format!(r#"{{"bin":{}}}"#, nested(n)));
        agree(&format!(r#"{{"x":1,"scripts":{},"y":2}}"#, nested(n)));
        agree(&format!("[1,{}]", nested(n)));
    }
}

#[test]
fn the_first_fault_is_told_at_its_place() {
    for text in [
        "",
        "  \n",
        "{",
        "{\"bin\"",
        "{\"bin\":",
        "{\"bin\":\n\n  ",
        "{\"bin\":1",
        "{\"bin\":1,",
        "{\"bin\":1,}",
        "{\"bin\":1x}",
        "{\"bin\":tru}",
        "{\"bin\":1 2}",
        "{\"bin\" 1}",
        "{bin:1}",
        "{,}",
        "{\"x\":1x}",
        "{\"x\":[1,}",
        "{\"x\":\"\u{1}\"}",
        "{} x",
        "{\"bin\":1} x",
        "{\"bin\":1e999}",
        "{\n \"a\":1,\n \"bin\" : [1, 1e999, }",
        "{\"bin\":\"\\ud800\"}",
        "{\"\\ud800\":1}",
        "{\"bin\":1,\"\\ud800\":1}",
        "{\"bin\":1,\"bin\":2}",
        "{\"bin\":1,\"bin\"}",
        "{\"bin\":1,\"bin\" ,",
        "{\"bin\":1,\"bin\"\n  ",
        "{\"bin\":1,\n\"é\":2,\n\"bin\"\n\n:3}",
        "{\"bin\":1,\"bin\":1e999}",
        "{\"bin\":1,\"bin\":2} trailing",
        "{\"bin\":1e999,\"bin\":2}",
        "{\"bin\":1,\"x\":}",
        "{\"bin\":1e999,\"x\":}",
        "{\"é日本\":1, \"scripts\": 1e999}",
        "{\"scripts\":{},\"directories\":{},\"scripts\":{}",
        "null",
        "nul",
        "true",
        "5",
        "5.5 x",
        "-",
        "\"text, expected a map\"",
        "\"cut",
        "}",
        "é",
        "[",
        "[1",
        "[1,",
        "[1,]",
        "[,]",
        "[1 2]",
        "[1,2,3,]",
        "[1,2,3,4]",
        "[1,2,3,4",
        "[1,2,3,1e999]",
        "[1,2,3x]",
        "[1,2,1e999]",
        "[1e999]",
        "[1,2] x",
        "[1,2,3] x",
        "[] x",
        "[1,tru",
    ] {
        assert!(serde_json::from_str::<Manifest>(text).is_err(), "{text:?}");
        agree(text);
    }
}

#[test]
fn cut_anywhere_a_manifest_is_told_alike() {
    let whole = "{\n  \"name\": \"p\u{e9}\",\n  \"bin\": {\"a\": [1, -2.5e3, true, null]},\n  \"x\": \"\\u00e9\",\n  \"scripts\": {},\n  \"bin\": 1\n}\n";
    for (i, _) in whole.char_indices() {
        agree(&whole[..i]);
        agree(&format!("{}@{}", &whole[..i], &whole[i..]));
    }
    agree(whole);
}

#[test]
fn a_list_is_read_by_place() {
    let list = |n: usize| Json::List((0..n).map(|i| Json::Number(i.to_string())).collect());
    let got = list_manifest(Ok(list(2)), Some("invalid length 2".to_string())).unwrap();
    assert_eq!(got.get("bin"), Some(&Json::Number("0".to_string())));
    assert_eq!(got.get("directories"), Some(&Json::Number("1".to_string())));
    assert_eq!(got.get("scripts"), None);
    assert_eq!(
        list_manifest(Ok(list(4)), Some("trailing".to_string())),
        Err("trailing".to_string())
    );
    assert_eq!(
        list_manifest(Err("a".to_string()), Some("invalid length 1".to_string())),
        Err("a".to_string())
    );
    assert_eq!(
        list_manifest(Err("a".to_string()), Some("b".to_string())),
        Err("b".to_string())
    );
}

#[test]
fn a_field_is_taken_out_of_its_member() {
    let mut fields = Vec::new();
    let member = Json::Object(vec![("b\u{69}n".to_string(), Json::Bool(true))]);
    assert_eq!(take_field(&mut fields, "bin", Ok(member)), Ok(()));
    assert_eq!(fields, vec![("bin".to_string(), Json::Bool(true))]);
    assert_eq!(
        take_field(&mut fields, "scripts", Err("no".to_string())),
        Err("no".to_string())
    );
    assert_eq!(fields.len(), 1);
}

#[test]
fn a_complaint_is_retold_at_its_end() {
    assert_eq!(
        retell("invalid type: string \", expected a map\", expected a map at line 1"),
        "invalid type: string \", expected a map\", expected struct Manifest at line 1"
    );
    assert_eq!(retell("EOF"), "EOF");
}
