use state_space::dimension::Dimension;
use state_space::space::{Space, SpaceError};

fn int_dim(v: i32) -> Dimension {
    Dimension::Integer { loc: v }
}

fn real_dim(v: f64) -> Dimension {
    Dimension::Real { bits: v.to_bits() }
}

fn space(name: &str, entries: Vec<(&str, Dimension)>) -> Space {
    let dims: Vec<(String, Dimension)> =
        entries.into_iter().map(|(k, d)| (k.to_string(), d)).collect();
    Space::new(name.to_string(), dims)
}

fn keys_of(s: &Space) -> Vec<String> {
    s.dims().iter().map(|p| p.0.clone()).collect()
}

fn lookup<'a>(s: &'a Space, key: &str) -> Option<&'a Dimension> {
    s.get(&key.to_string())
}

#[test]
fn product_cardinality_and_nesting() {
    let a = space("A", vec![("d1", int_dim(1))]);
    let b = space("B", vec![("d2", int_dim(2)), ("d3", int_dim(3))]);
    let p = a.mul(b);
    assert_eq!(p.dims().len(), 2);
    assert_eq!(keys_of(&p), vec!["A".to_string(), "B".to_string()]);
    match lookup(&p, "A") {
        Some(Dimension::Space(inner)) => {
            assert_eq!(inner.name().as_str(), "A");
            assert_eq!(inner.dims().len(), 1);
        }
        _ => panic!("left operand not nested under its name"),
    }
    match lookup(&p, "B") {
        Some(Dimension::Space(inner)) => {
            assert_eq!(inner.name().as_str(), "B");
            assert_eq!(inner.dims().len(), 2);
        }
        _ => panic!("right operand not nested under its name"),
    }
}

#[test]
fn product_name_joins_operands() {
    let a = space("A", vec![]);
    let b = space("B", vec![]);
    let p = a.mul(b);
    assert_eq!(p.name().as_str(), "A * B");
}

#[test]
fn product_collision_disambiguation() {
    let a = space("space_1", vec![("d1", int_dim(1)), ("d2", int_dim(2))]);
    let b = space("space_1", vec![("d3", int_dim(3)), ("d4", int_dim(4))]);
    let p = a.mul(b);
    let mut keys = keys_of(&p);
    keys.sort();
    assert_eq!(keys, vec!["space_1_0".to_string(), "space_1_1".to_string()]);
    assert_eq!(p.name().as_str(), "space_1 * space_1");
}

fn content_signature(s: &Space) -> Vec<(String, String)> {
    let mut out: Vec<(String, String)> = s
        .dims()
        .iter()
        .map(|p| match &p.1 {
            Dimension::Space(inner) => (inner.name().clone(), inner.unroll_schema()),
            _ => panic!("product entry is not a nested space"),
        })
        .collect();
    out.sort();
    out
}

#[test]
fn product_content_commutes() {
    let a = space("A", vec![("d1", int_dim(1))]);
    let b = space("B", vec![("d2", real_dim(2.0))]);
    let ab = a.clone().mul(b.clone());
    let ba = b.mul(a);
    assert_eq!(ab.dims().len(), 2);
    assert_eq!(ba.dims().len(), 2);
    assert_eq!(content_signature(&ab), content_signature(&ba));
    assert_eq!(ab.name().as_str(), "A * B");
    assert_eq!(ba.name().as_str(), "B * A");
}

#[test]
fn merge_disjoint_union() {
    let a = space("a", vec![("d_1", int_dim(1)), ("d_2", real_dim(1.0))]);
    let b = space("b", vec![("d_3", int_dim(3))]);
    let m = a.add(b);
    assert_eq!(m.name().as_str(), "a + b");
    assert_eq!(m.dims().len(), 3);
    assert_eq!(
        keys_of(&m),
        vec!["d_1".to_string(), "d_2".to_string(), "d_3".to_string()]
    );
    assert!(matches!(lookup(&m, "d_1"), Some(Dimension::Integer { loc: 1 })));
    assert!(matches!(lookup(&m, "d_3"), Some(Dimension::Integer { loc: 3 })));
}

#[test]
fn merge_collision_disambiguation() {
    let a = space("a", vec![("d_1", int_dim(1)), ("d_2", int_dim(2))]);
    let b = space("b", vec![("d_1", int_dim(9)), ("d_3", int_dim(3))]);
    let m = a.add(b);
    assert_eq!(m.dims().len(), 4);
    let mut keys = keys_of(&m);
    keys.sort();
    assert_eq!(
        keys,
        vec![
            "d_1_0".to_string(),
            "d_1_1".to_string(),
            "d_2".to_string(),
            "d_3".to_string()
        ]
    );
    assert!(matches!(lookup(&m, "d_1_0"), Some(Dimension::Integer { loc: 1 })));
    assert!(matches!(lookup(&m, "d_1_1"), Some(Dimension::Integer { loc: 9 })));
}

#[test]
fn pow_expansion() {
    let s = space("s", vec![("d", int_dim(7))]);
    let p = s.clone().pow(3);
    assert_eq!(p.name().as_str(), "s * s * s");
    assert_eq!(
        keys_of(&p),
        vec!["s_0".to_string(), "s_1".to_string(), "s_2".to_string()]
    );
    for entry in p.dims().iter() {
        match &entry.1 {
            Dimension::Space(inner) => {
                assert_eq!(inner.name().as_str(), "s");
                assert_eq!(inner.unroll_schema(), s.unroll_schema());
            }
            _ => panic!("power entry is not a nested space"),
        }
    }
}

#[test]
fn pow_identity_at_one() {
    let s = space("s", vec![("d", int_dim(7))]);
    let p = s.clone().pow(1);
    assert_eq!(p.name().as_str(), "s");
    assert_eq!(keys_of(&p), keys_of(&s));
    assert_eq!(p.unroll_schema(), s.unroll_schema());
}

#[test]
fn pow_identity_at_zero() {
    let s = space("s", vec![("d", int_dim(7))]);
    let p = s.clone().pow(0);
    assert_eq!(p.name().as_str(), "s");
    assert_eq!(p.unroll_schema(), s.unroll_schema());
}

#[test]
fn pow_two_digit_keys() {
    let s = space("s", vec![]);
    let p = s.pow(12);
    let keys = keys_of(&p);
    assert_eq!(keys.len(), 12);
    assert_eq!(keys[9].as_str(), "s_9");
    assert_eq!(keys[10].as_str(), "s_10");
    assert_eq!(keys[11].as_str(), "s_11");
}

#[test]
fn is_empty_reports_emptiness() {
    let e = space("empty", vec![]);
    assert!(e.is_empty());
    let s = space("s", vec![("d", int_dim(0))]);
    assert!(!s.is_empty());
}

#[test]
fn rename_preserves_values_changes_keys() {
    let mut s = space("s", vec![("d_1", int_dim(1)), ("d_2", real_dim(1.0))]);
    let r = s.rename_dims(vec![("d_1".to_string(), "new_name".to_string())]);
    assert!(r.is_ok());
    let mut keys = keys_of(&s);
    keys.sort();
    assert_eq!(keys, vec!["d_2".to_string(), "new_name".to_string()]);
    assert!(matches!(lookup(&s, "new_name"), Some(Dimension::Integer { loc: 1 })));
    let expected_bits = 1.0f64.to_bits();
    match lookup(&s, "d_2") {
        Some(Dimension::Real { bits }) => assert_eq!(*bits, expected_bits),
        _ => panic!("d_2 lost its value"),
    }
}

#[test]
fn rename_missing_key_fails_without_effect() {
    let mut s = space("s", vec![("d_1", int_dim(1))]);
    let before = s.unroll_schema();
    let r = s.rename_dims(vec![
        ("zz".to_string(), "anything".to_string()),
        ("d_1".to_string(), "d_9".to_string()),
    ]);
    match r {
        Err(SpaceError::MissingDimension { key }) => assert_eq!(key.as_str(), "zz"),
        _ => panic!("renaming an absent key must fail"),
    }
    assert_eq!(s.unroll_schema(), before);
    assert_eq!(keys_of(&s), vec!["d_1".to_string()]);
}

#[test]
fn rename_applies_in_order() {
    let mut s = space("s", vec![("a", int_dim(5))]);
    let r = s.rename_dims(vec![
        ("a".to_string(), "b".to_string()),
        ("b".to_string(), "c".to_string()),
    ]);
    assert!(r.is_ok());
    assert_eq!(keys_of(&s), vec!["c".to_string()]);
    assert!(matches!(lookup(&s, "c"), Some(Dimension::Integer { loc: 5 })));
}

#[test]
fn update_ignores_unknown_keys() {
    let mut s = space("s", vec![("d_1", int_dim(1))]);
    let before = s.unroll_schema();
    s.update_dims(vec![("unknown".to_string(), int_dim(9))]);
    assert_eq!(s.unroll_schema(), before);
    assert_eq!(keys_of(&s), vec!["d_1".to_string()]);
    assert!(matches!(lookup(&s, "d_1"), Some(Dimension::Integer { loc: 1 })));
}

#[test]
fn update_replaces_matching_value() {
    let mut s = space("s", vec![("d_1", int_dim(1)), ("d_2", int_dim(2))]);
    s.update_dims(vec![("d_1".to_string(), int_dim(42))]);
    assert!(matches!(lookup(&s, "d_1"), Some(Dimension::Integer { loc: 42 })));
    assert!(matches!(lookup(&s, "d_2"), Some(Dimension::Integer { loc: 2 })));
}

#[test]
fn update_may_change_shape() {
    let mut s = space("s", vec![("d_1", int_dim(1))]);
    s.update_dims(vec![("d_1".to_string(), real_dim(2.5))]);
    let expected_bits = 2.5f64.to_bits();
    match lookup(&s, "d_1") {
        Some(Dimension::Real { bits }) => assert_eq!(*bits, expected_bits),
        _ => panic!("update must overwrite with the replacement's own variant"),
    }
}

#[test]
fn dimension_update_overwrites_unconditionally() {
    let d = int_dim(1);
    let r = d.update(real_dim(3.5));
    match r {
        Dimension::Real { bits } => assert_eq!(bits, 3.5f64.to_bits()),
        _ => panic!("update must carry the replacement's payload"),
    }
    let r2 = d.update(int_dim(8));
    assert!(matches!(r2, Dimension::Integer { loc: 8 }));
}

#[test]
fn unroll_schema_empty() {
    let s = space("s", vec![]);
    assert_eq!(s.unroll_schema(), "{}");
}

#[test]
fn unroll_schema_scalars() {
    let s = space("s", vec![("x", int_dim(-5)), ("y", real_dim(2.0))]);
    let expected = format!("{{\"x\": Integer(-5), \"y\": Real(bits={})}}", 2.0f64.to_bits());
    assert_eq!(s.unroll_schema(), expected);
}

#[test]
fn unroll_schema_nested() {
    let inner = space("in", vec![("a", int_dim(1))]);
    let s = space("out", vec![("sub", Dimension::Space(inner))]);
    assert_eq!(
        s.unroll_schema(),
        "{\"sub\": Space(\"in\", {\"a\": Integer(1)})}"
    );
}

#[test]
fn get_finds_existing_and_rejects_missing() {
    let s = space("s", vec![("d_1", int_dim(1))]);
    assert!(matches!(lookup(&s, "d_1"), Some(Dimension::Integer { loc: 1 })));
    assert!(lookup(&s, "d_2").is_none());
}

#[test]
fn construction_and_accessors() {
    let s = space("a name", vec![("k", int_dim(3))]);
    assert_eq!(s.name().as_str(), "a name");
    assert_eq!(s.dims().len(), 1);
    assert_eq!(s.dims()[0].0.as_str(), "k");
    let c = s.clone();
    assert_eq!(c.name().as_str(), "a name");
    assert_eq!(c.unroll_schema(), s.unroll_schema());
}

#[test]
fn pow_at_largest_exponent() {
    let s = space("s", vec![]);
    let p = s.pow(255);
    let keys = keys_of(&p);
    assert_eq!(keys.len(), 255);
    assert_eq!(keys[0].as_str(), "s_0");
    assert_eq!(keys[254].as_str(), "s_254");
}

#[test]
fn unroll_schema_most_negative_integer() {
    let s = space("s", vec![("m", int_dim(i32::MIN))]);
    assert_eq!(s.unroll_schema(), "{\"m\": Integer(-2147483648)}");
}
