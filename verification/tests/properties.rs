use tiled::properties::parse_properties;
use tiled::{read_events, Properties, PropertyValue, Real, TiledError};

fn value(kind: &str, text: &str) -> Result<PropertyValue, TiledError> {
    PropertyValue::new(kind.to_string(), text.to_string())
}

fn message(outcome: Result<PropertyValue, TiledError>) -> String {
    match outcome {
        Err(TiledError::Other(m)) => m,
        other => panic!("{:?}", other),
    }
}

#[test]
fn booleans_are_true_and_false() {
    assert_eq!(value("bool", "true").unwrap(), PropertyValue::BoolValue(true));
    assert_eq!(value("bool", "false").unwrap(), PropertyValue::BoolValue(false));
    for bad in ["1", "0", "", "True", "TRUE", " true", "yes"] {
        assert_eq!(
            message(value("bool", bad)),
            bad.parse::<bool>().unwrap_err().to_string(),
            "{:?}",
            bad
        );
    }
    assert_eq!(message(value("bool", "1")), "provided string was not `true` or `false`");
}

#[test]
fn colours_are_hexadecimal_behind_their_first_character() {
    assert_eq!(value("color", "#ff0000").unwrap(), PropertyValue::ColorValue(0xff0000));
    assert_eq!(value("color", "#80ff0000").unwrap(), PropertyValue::ColorValue(0x80ff0000));
    assert_eq!(value("color", "xF").unwrap(), PropertyValue::ColorValue(15));
    assert_eq!(message(value("color", "#ff00zz")), "Improperly formatted color property");
    assert_eq!(message(value("color", "#100000000")), "Improperly formatted color property");
    assert_eq!(message(value("color", "#")), "Improperly formatted color property");
    assert_eq!(message(value("color", "")), "Improperly formatted color property");
}

#[test]
fn integers_fail_with_the_message_of_the_parser() {
    assert_eq!(value("int", "42").unwrap(), PropertyValue::IntValue(42));
    assert_eq!(value("int", "-2147483648").unwrap(), PropertyValue::IntValue(i32::MIN));
    assert_eq!(value("int", "+17").unwrap(), PropertyValue::IntValue(17));
    for bad in ["abc", "", "2147483648", "-2147483649", "+", "1.0", "99999999999x"] {
        assert_eq!(
            message(value("int", bad)),
            bad.parse::<i32>().unwrap_err().to_string(),
            "{:?}",
            bad
        );
    }
    assert_eq!(message(value("int", "abc")), "invalid digit found in string");
    assert_eq!(message(value("int", "")), "cannot parse integer from empty string");
    assert_eq!(message(value("int", "2147483648")), "number too large to fit in target type");
    assert_eq!(message(value("int", "-2147483649")), "number too small to fit in target type");
    let tricky = [
        "-", "+", "+-1", "-+1", "--1", "++1", " 1", "1 ", "1_0", "0x10", "१२", "1e3", "1.0",
        "2147483647x", "2147483648x", "21474836470", "21474836470x", "-2147483648x",
        "-2147483649x", "-21474836480", "99999999999999999999", "99999999999999999999x",
        "-99999999999999999999", "-99999999999999999999x", "x99999999999999999999",
        "00000000000000000000002147483648", "-00000000000000000000002147483649",
        "0000000000000000000000214748364x", "+2147483648", "+2147483647+", "214748364-",
        "-0x", "+0000000000000000000000000000000000000000000009999999999",
    ];
    for bad in tricky {
        assert_eq!(
            message(value("int", bad)),
            bad.parse::<i32>().unwrap_err().to_string(),
            "{:?}",
            bad
        );
    }
}

#[test]
fn reals_fail_with_the_message_of_the_parser() {
    assert_eq!(
        value("float", "1.5").unwrap(),
        PropertyValue::FloatValue(Real::parse("1.5").unwrap())
    );
    match value("float", "-3e2").unwrap() {
        PropertyValue::FloatValue(r) => assert_eq!(r.text().parse::<f32>().unwrap(), -300.0f32),
        other => panic!("{:?}", other),
    }
    for bad in ["", "abc", "1,5", " 1", "1e"] {
        assert_eq!(
            message(value("float", bad)),
            bad.parse::<f32>().unwrap_err().to_string(),
            "{:?}",
            bad
        );
    }
}

#[test]
fn strings_and_files_pass_through() {
    assert_eq!(value("string", "a b").unwrap(), PropertyValue::StringValue("a b".to_string()));
    assert_eq!(value("string", "").unwrap(), PropertyValue::StringValue(String::new()));
    assert_eq!(
        value("file", "../x.png").unwrap(),
        PropertyValue::FileValue("../x.png".to_string())
    );
}

#[test]
fn other_types_are_unknown() {
    assert_eq!(message(value("object", "3")), "Unknown property type \"object\"");
    assert_eq!(message(value("", "3")), "Unknown property type \"\"");
    assert_eq!(message(value("Bool", "true")), "Unknown property type \"Bool\"");
}

#[test]
fn a_later_value_takes_the_place_of_an_earlier_one() {
    let mut bag = Properties::new();
    assert_eq!(bag.get("a"), None);
    bag.insert("a".to_string(), PropertyValue::IntValue(1));
    bag.insert("b".to_string(), PropertyValue::IntValue(2));
    bag.insert("a".to_string(), PropertyValue::BoolValue(true));
    assert_eq!(bag.get("a"), Some(&PropertyValue::BoolValue(true)));
    assert_eq!(bag.get("b"), Some(&PropertyValue::IntValue(2)));
    assert_eq!(bag.get("c"), None);
    assert_eq!(bag.entries().len(), 2);
    let copy = bag.clone();
    assert_eq!(copy, bag);
    assert_eq!(copy.get("a"), Some(&PropertyValue::BoolValue(true)));
}

#[test]
fn a_bag_is_read_from_its_element() {
    let doc = br##"<properties>
        <property name="lives" type="int" value="3"/>
        <property name="title" value="Cave"/>
        <other name="x" value="y"/>
        <property name="tint" type="color" value="#ff00ff00"/>
        <property name="lives" type="int" value="4"/>
      </properties>"##;
    let events = read_events(doc);
    let (bag, next) = parse_properties(&events, 1).unwrap();
    assert_eq!(bag.entries().len(), 3);
    assert_eq!(bag.get("lives"), Some(&PropertyValue::IntValue(4)));
    assert_eq!(bag.get("title"), Some(&PropertyValue::StringValue("Cave".to_string())));
    assert_eq!(bag.get("tint"), Some(&PropertyValue::ColorValue(0xff00ff00)));
    assert_eq!(bag.get("x"), None);
    assert!(matches!(events[next - 1], tiled::Event::Close { .. }));
    assert!(matches!(events[next], tiled::Event::End));
}

#[test]
fn a_property_needs_a_name_and_a_value() {
    let events = read_events(br#"<properties><property name="lives"/></properties>"#);
    match parse_properties(&events, 1) {
        Err(TiledError::MalformedAttributes(m)) => {
            assert_eq!(m, "property must have a name and a value")
        }
        other => panic!("{:?}", other),
    }
    let events = read_events(br#"<properties><property value="3"/></properties>"#);
    assert!(matches!(parse_properties(&events, 1), Err(TiledError::MalformedAttributes(_))));
    let events =
        read_events(br#"<properties><property name="a" type="int" value="x"/></properties>"#);
    assert!(matches!(parse_properties(&events, 1), Err(TiledError::Other(_))));
}
