use verified_collections::person::{ParsePersonError, Person};

fn person(name: &str, age: usize) -> Person {
    Person { name: name.to_string(), age }
}

#[test]
fn default_person_is_john_aged_thirty() {
    assert_eq!(Person::default(), person("John", 30));
}

#[test]
fn from_reads_name_and_age() {
    assert_eq!(Person::from("Mark,20"), person("Mark", 20));
    assert_eq!(Person::from("Ann Lee,0"), person("Ann Lee", 0));
    assert_eq!(Person::from("Zoë,+7"), person("Zoë", 7));
}

#[test]
fn from_falls_back_to_the_default() {
    for text in ["", "Mark", "Mark,", "Mark,twenty", ",1", ",", ",one", "Mike,32,", "Mike,32,man", ",,", "Mark,-3", "Mark, 20"] {
        assert_eq!(Person::from(text), person("John", 30), "{:?}", text);
    }
}

#[test]
fn from_str_reads_name_and_age() {
    assert_eq!(Person::from_str("John,32"), Ok(person("John", 32)));
    assert_eq!("Ada,007".parse::<Person>(), Ok(person("Ada", 7)));
}

#[test]
fn from_str_names_the_first_fault() {
    assert_eq!(Person::from_str(""), Err(ParsePersonError::Empty));
    assert_eq!(Person::from_str("John"), Err(ParsePersonError::BadLen));
    assert_eq!(Person::from_str("John,32,"), Err(ParsePersonError::BadLen));
    assert_eq!(Person::from_str("John,32,man"), Err(ParsePersonError::BadLen));
    assert_eq!(Person::from_str(",,"), Err(ParsePersonError::BadLen));
    assert_eq!(Person::from_str(",1"), Err(ParsePersonError::NoName));
    assert_eq!(Person::from_str(",one"), Err(ParsePersonError::NoName));
    assert_eq!(Person::from_str(","), Err(ParsePersonError::NoName));
    assert!(matches!(Person::from_str("John,"), Err(ParsePersonError::ParseInt(_))));
    assert!(matches!(Person::from_str("John,twenty"), Err(ParsePersonError::ParseInt(_))));
    assert!(matches!(Person::from_str("John,+"), Err(ParsePersonError::ParseInt(_))));
    assert!(matches!(Person::from_str("John,3 2"), Err(ParsePersonError::ParseInt(_))));
}

#[test]
fn age_must_fit() {
    let greatest = format!("Old,{}", usize::MAX);
    assert_eq!(Person::from_str(&greatest), Ok(person("Old", usize::MAX)));
    assert!(matches!(
        Person::from_str("Older,340282366920938463463374607431768211456"),
        Err(ParsePersonError::ParseInt(_))
    ));
    assert_eq!(Person::from("Older,340282366920938463463374607431768211456"), person("John", 30));
}
