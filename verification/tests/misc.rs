use oxcraft::chat::{ChatColor, ChatComponent};
use oxcraft::logging::CraftVisitor;
use oxcraft::nsfr::CellerCell;
use oxcraft::registry::{ChatType, Registry, RegistryItem};
use oxcraft::source::context_info;

#[test]
fn celler_cell() {
    let mut c = CellerCell::new(5u32);
    assert_eq!(c.get(), 5);
    *c.get_mut() = 6;
    assert_eq!(c.replace(7), 6);
    assert_eq!(c.into_inner(), 7);
}

#[test]
fn visitor_records_fields() {
    let mut v = CraftVisitor::new();
    v.record("message", "hello".to_string());
    v.record("addr", "1".to_string());
    v.record("state", "Login".to_string());
    v.record("addr", "2".to_string());
    assert_eq!(v.message.as_deref(), Some("hello"));
    assert_eq!(
        v.other_fields,
        vec![("addr".to_string(), "2".to_string()), ("state".to_string(), "Login".to_string())]
    );
    v.record("message", "bye".to_string());
    assert_eq!(v.message.as_deref(), Some("bye"));
}

#[test]
fn registry_numbers_by_position() {
    let r = Registry(vec![("a".to_string(), 10u8), ("b".to_string(), 20u8)]);
    let e = r.entries();
    assert_eq!(e.len(), 2);
    assert_eq!((e[0].name.as_str(), e[0].id, e[0].element), ("a", 0, 10));
    assert_eq!((e[1].name.as_str(), e[1].id, e[1].element), ("b", 1, 20));
    assert_eq!(<ChatType as RegistryItem>::registry(), "minecraft:chat_type");
    assert!(Registry::<u8>::new().entries().is_empty());
}

#[test]
fn registry_insert_keeps_names_unique() {
    let mut r: Registry<u8> = Registry::new();
    r.insert("a".to_string(), 1);
    r.insert("b".to_string(), 2);
    r.insert("a".to_string(), 3);
    assert_eq!(r.0, vec![("a".to_string(), 3), ("b".to_string(), 2)]);
    let e = r.entries();
    assert_eq!((e[0].name.as_str(), e[0].id, e[0].element), ("a", 0, 3));
    assert_eq!((e[1].name.as_str(), e[1].id, e[1].element), ("b", 1, 2));
}

#[test]
fn chat_defaults() {
    assert_eq!(ChatColor::default(), ChatColor::Reset);
    match ChatComponent::default() {
        ChatComponent::String(s) => {
            assert!(s.text.is_empty());
            assert!(!s.basic.bold && s.basic.extra.is_empty() && s.basic.color.is_none());
        }
        _ => panic!("expected text"),
    }
}

#[test]
fn span_context_without_context_lines() {
    let input = b"ab\ncd\nef";
    let c = context_info(input, 4, 1, 0, 0, Some("x.bin".to_string())).unwrap();
    assert_eq!((c.start, c.end, c.line, c.column, c.line_count), (4, 5, 1, 1, 1));
    assert_eq!(c.name.as_deref(), Some("x.bin"));
    assert!(context_info(b"ab", 5, 2, 0, 0, None).is_none());
}

#[test]
fn empty_span_past_the_input_has_no_context() {
    assert!(context_info(b"ab", 3, 0, 0, 0, None).is_none());
    let c = context_info(b"ab", 2, 0, 0, 0, None).unwrap();
    assert_eq!((c.start, c.end), (2, 2));
}

#[test]
fn span_context_with_lines_around() {
    let input = b"l0\nl1\nl2\nl3\nl4";
    let c = context_info(input, 6, 2, 1, 1, None).unwrap();
    assert_eq!(c.start, 3);
    assert_eq!(c.line, 1);
    assert_eq!(c.column, 0);
    assert_eq!(&input[c.start..c.end], b"l1\nl2\nl3\n");
}
