use aerogramme_core::dav::caltypes;
use aerogramme_core::dav::cardtypes::{self, FilterTest, NegateCondition, NoValue, TextMatchType};
use aerogramme_core::dav::fuzz_input::{Tag, Token, XmlNode, TOKEN_COUNT};

#[test]
fn calendar_component_names() {
    let all = [
        (caltypes::Component::VCalendar, "VCALENDAR"),
        (caltypes::Component::VJournal, "VJOURNAL"),
        (caltypes::Component::VFreeBusy, "VFREEBUSY"),
        (caltypes::Component::VEvent, "VEVENT"),
        (caltypes::Component::VTodo, "VTODO"),
        (caltypes::Component::VAlarm, "VALARM"),
        (caltypes::Component::VTimeZone, "VTIMEZONE"),
    ];
    for (c, name) in all.iter() {
        assert_eq!(c.as_str(), *name);
        assert_eq!(&caltypes::Component::new(name.to_string()), c);
    }
    let other = caltypes::Component::new("X-THING".to_string());
    assert_eq!(other, caltypes::Component::Unknown("X-THING".to_string()));
    assert_eq!(other.as_str(), "X-THING");
    // Names are case sensitive.
    assert_eq!(caltypes::Component::new("vevent".to_string()), caltypes::Component::Unknown("vevent".to_string()));
}

#[test]
fn calendar_collation_names() {
    assert_eq!(caltypes::Collation::AsciiCaseMap.as_str(), "i;ascii-casemap");
    assert_eq!(caltypes::Collation::Octet.as_str(), "i;octet");
}

#[test]
fn card_collation_names() {
    assert_eq!(cardtypes::Collation::UnicodeCaseMap.as_str(), "i;unicode-casemap");
    assert_eq!(cardtypes::Collation::AsciiCaseMap.as_str(), "i;ascii-casemap");
    assert_eq!(cardtypes::Collation::new("i;unicode-casemap".to_string()), cardtypes::Collation::UnicodeCaseMap);
    assert_eq!(cardtypes::Collation::new("i;ascii-casemap".to_string()), cardtypes::Collation::AsciiCaseMap);
    let other = cardtypes::Collation::new("i;octet".to_string());
    assert_eq!(other, cardtypes::Collation::Unknown("i;octet".to_string()));
    assert_eq!(other.as_str(), "i;octet");
}

#[test]
fn card_filter_words() {
    assert_eq!(FilterTest::AnyOf.as_str(), "anyof");
    assert_eq!(FilterTest::AllOf.as_str(), "allof");
    assert_eq!(FilterTest::parse("allof"), Some(FilterTest::AllOf));
    assert_eq!(FilterTest::parse("anyof"), Some(FilterTest::AnyOf));
    assert_eq!(FilterTest::parse("AnyOf"), None);
    for t in [TextMatchType::Equals, TextMatchType::Contains, TextMatchType::StartsWith, TextMatchType::EndsWith] {
        assert_eq!(TextMatchType::parse(t.as_str()), Some(t.clone()));
    }
    assert_eq!(TextMatchType::StartsWith.as_str(), "starts-with");
    assert_eq!(TextMatchType::parse("begins"), None);
    assert_eq!(NegateCondition::Yes.as_str(), "yes");
    assert_eq!(NegateCondition::parse("no"), Some(NegateCondition::No));
    assert_eq!(NegateCondition::parse("maybe"), None);
    assert_eq!(NoValue::No.as_str(), "no");
    assert_eq!(NoValue::Yes.as_str(), "yes");
}

#[test]
fn fuzz_tokens_wrap_around() {
    assert_eq!(Token::Known(0).serialize(), "0");
    assert_eq!(Token::Known(2).serialize(), "activelock");
    assert_eq!(Token::Known(TOKEN_COUNT + 2).serialize(), "activelock");
}

#[test]
fn fuzz_tags_and_nodes() {
    let tag = Tag { name: Token::Known(27), attr: None };
    assert_eq!(tag.start(), "D:href");
    assert_eq!(tag.end(), "D:href");
    let with_attr = Tag { name: Token::Known(27), attr: Some((Token::Known(0), Token::Known(1))) };
    assert_eq!(with_attr.start(), "D:href 0=\"1\"");
    let empty = XmlNode::Node(Tag { name: Token::Known(3), attr: None }, vec![]);
    assert_eq!(empty.serialize(), "<D:allprop/>");
    let node = XmlNode::Node(
        Tag { name: Token::Known(27), attr: None },
        vec![XmlNode::Number(1207), XmlNode::Text(Token::Known(30))],
    );
    assert_eq!(node.serialize(), "<D:href>1207infinity</D:href>");
    assert_eq!(XmlNode::Number(0).serialize(), "0");
}
