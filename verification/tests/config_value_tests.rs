use zako_core::config_value::{ConfigDefault, ConfigType, ResolvedConfigValue};
use zako_core::id::Label;
use zako_core::intern::Interner;

#[test]
fn test_resolved_config_value_resolve() {
    let mut interner = Interner::new();

    // Label
    let label = Label::try_parse("//src:lib", &mut interner).unwrap();
    let rcv_label = ResolvedConfigValue::Label(label);
    let cv_label = rcv_label.resolve(&interner).unwrap();
    assert!(matches!(cv_label.config_type, ConfigType::Label));
    if let Some(ConfigDefault::Label(s)) = cv_label.default {
        assert_eq!(s, "//src:lib");
    } else {
        panic!("Expected Label default");
    }

    // String
    let rcv_str = ResolvedConfigValue::String("hello".into());
    let cv_str = rcv_str.resolve(&interner).unwrap();
    assert!(matches!(cv_str.config_type, ConfigType::String));
    if let Some(ConfigDefault::String { string }) = cv_str.default {
        assert_eq!(string, "hello");
    } else {
        panic!("Expected String default");
    }

    // Boolean
    let rcv_bool = ResolvedConfigValue::Boolean(true);
    let cv_bool = rcv_bool.resolve(&interner).unwrap();
    assert!(matches!(cv_bool.config_type, ConfigType::Boolean));
    assert_eq!(cv_bool.default, Some(ConfigDefault::Boolean(true)));

    // Number
    let rcv_num = ResolvedConfigValue::Number(42);
    let cv_num = rcv_num.resolve(&interner).unwrap();
    assert!(matches!(cv_num.config_type, ConfigType::Number));
    assert_eq!(cv_num.default, Some(ConfigDefault::Number(42)));
}
