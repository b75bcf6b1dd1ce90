use bit_register::debug_non_default::{debug_non_default, Fields, NamedField, UnnamedField};
use std::collections::HashMap;
use std::fmt::Debug;

fn named<T: Debug + Default + PartialEq>(name: &str, value: &T) -> NamedField {
    NamedField {
        name: name.to_string(),
        text: format!("{:?}", value),
        is_default: *value == T::default(),
    }
}

fn unnamed<T: Debug + Default + PartialEq>(value: &T) -> UnnamedField {
    UnnamedField { text: format!("{:?}", value), is_default: *value == T::default() }
}

#[derive(Default)]
struct Person {
    name: String,
    age: u32,
    city: String,
}

impl Person {
    fn debug(&self) -> String {
        let fields = Fields::Named(vec![
            named("name", &self.name),
            named("age", &self.age),
            named("city", &self.city),
        ]);
        debug_non_default("Person", &fields)
    }
}

#[derive(Default, PartialEq)]
struct Address {
    street: String,
    city: String,
    state: String,
    postal_code: String,
    country: String,
}

impl Address {
    fn debug(&self) -> String {
        let fields = Fields::Named(vec![
            named("street", &self.street),
            named("city", &self.city),
            named("state", &self.state),
            named("postal_code", &self.postal_code),
            named("country", &self.country),
        ]);
        debug_non_default("Address", &fields)
    }
}

#[derive(Default, PartialEq)]
struct Profile {
    bio: String,
    interests: Vec<String>,
    social_media: HashMap<String, String>,
}

impl Profile {
    fn debug(&self) -> String {
        let fields = Fields::Named(vec![
            named("bio", &self.bio),
            named("interests", &self.interests),
            named("social_media", &self.social_media),
        ]);
        debug_non_default("Profile", &fields)
    }
}

#[derive(Default)]
struct User {
    id: u64,
    username: String,
    email: String,
    address: Address,
    profile: Profile,
    active: bool,
}

impl User {
    fn debug(&self) -> String {
        let fields = Fields::Named(vec![
            named("id", &self.id),
            named("username", &self.username),
            named("email", &self.email),
            NamedField {
                name: "address".to_string(),
                text: self.address.debug(),
                is_default: self.address == Address::default(),
            },
            NamedField {
                name: "profile".to_string(),
                text: self.profile.debug(),
                is_default: self.profile == Profile::default(),
            },
            named("active", &self.active),
        ]);
        debug_non_default("User", &fields)
    }
}

#[derive(Default)]
struct Point(i32, i32, i32);

impl Point {
    fn debug(&self) -> String {
        let fields = Fields::Unnamed(vec![unnamed(&self.0), unnamed(&self.1), unnamed(&self.2)]);
        debug_non_default("Point", &fields)
    }
}

#[derive(Default)]
struct RGB(u8, u8, u8);

impl RGB {
    fn debug(&self) -> String {
        let fields = Fields::Unnamed(vec![unnamed(&self.0), unnamed(&self.1), unnamed(&self.2)]);
        debug_non_default("RGB", &fields)
    }
}

#[derive(Default)]
struct Empty;

impl Empty {
    fn debug(&self) -> String {
        debug_non_default("Empty", &Fields::Unit)
    }
}

#[test]
fn test_empty_struct() {
    // All default values, should print empty struct
    let person = Person::default();
    assert_eq!(person.debug(), "Person");
}

#[test]
fn test_partial_fields() {
    // Some non-default values
    let person = Person {
        name: "John".to_string(),
        age: 0, // Default for u32
        city: "New York".to_string(),
    };
    assert_eq!(person.debug(), "Person { name: \"John\", city: \"New York\" }");
}

#[test]
fn test_all_fields() {
    // All non-default values
    let person = Person { name: "Jane".to_string(), age: 30, city: "Boston".to_string() };
    assert_eq!(person.debug(), "Person { name: \"Jane\", age: 30, city: \"Boston\" }");
}

#[test]
fn test_nested_default_structs() {
    // A user with default inner structs
    let user = User {
        username: "simple_user".to_string(),
        email: "simple@example.com".to_string(),
        ..Default::default()
    };
    assert_eq!(
        user.debug(),
        "User { username: \"simple_user\", email: \"simple@example.com\" }"
    );
}

#[test]
fn test_nested_non_default_structs() {
    // Create a partial address
    let address =
        Address { city: "New York".to_string(), country: "USA".to_string(), ..Default::default() };

    // Create a profile with some data
    let mut social_media = HashMap::new();
    social_media.insert("twitter".to_string(), "@example".to_string());

    let profile =
        Profile { bio: "Rust programmer".to_string(), social_media, ..Default::default() };

    // A user with nested non-default fields
    let user = User {
        username: "complex_user".to_string(),
        email: "complex@example.com".to_string(),
        address,
        profile,
        active: true,
        ..Default::default()
    };

    let debug_str = user.debug();

    // Check that it contains all the non-default fields
    assert!(debug_str.contains("username: \"complex_user\""));
    assert!(debug_str.contains("email: \"complex@example.com\""));
    assert!(debug_str.contains("city: \"New York\""));
    assert!(debug_str.contains("country: \"USA\""));
    assert!(debug_str.contains("bio: \"Rust programmer\""));
    assert!(debug_str.contains("twitter"));
    assert!(debug_str.contains("@example"));
    assert!(debug_str.contains("active: true"));
}

#[test]
fn nested_structs_render_in_full() {
    let address =
        Address { city: "New York".to_string(), country: "USA".to_string(), ..Default::default() };
    let user = User { id: 7, address, ..Default::default() };
    assert_eq!(
        user.debug(),
        "User { id: 7, address: Address { city: \"New York\", country: \"USA\" } }"
    );
}

#[test]
fn test_all_default_tuple() {
    let point = Point::default(); // (0, 0, 0)
    assert_eq!(point.debug(), "Point(_, _, _)");
}

#[test]
fn test_partial_non_default_tuple() {
    let point = Point(1, 0, 0); // First field is non-default
    assert_eq!(point.debug(), "Point(1, _, _)");
}

#[test]
fn test_some_non_default_tuple() {
    let point = Point(1, 0, 2); // First and third fields are non-default
    assert_eq!(point.debug(), "Point(1, _, 2)");
}

#[test]
fn test_all_non_default_tuple() {
    let point = Point(1, 2, 3); // All fields are non-default
    assert_eq!(point.debug(), "Point(1, 2, 3)");
}

#[test]
fn test_rgb_tuple() {
    let black = RGB::default(); // (0, 0, 0)
    assert_eq!(black.debug(), "RGB(_, _, _)");

    let red = RGB(255, 0, 0);
    assert_eq!(red.debug(), "RGB(255, _, _)");

    let purple = RGB(255, 0, 255);
    assert_eq!(purple.debug(), "RGB(255, _, 255)");
}

#[test]
fn test_unit_struct() {
    let empty = Empty;
    assert_eq!(empty.debug(), "Empty");
}

#[test]
fn struct_without_fields_prints_its_name_only() {
    assert_eq!(debug_non_default("Nothing", &Fields::Named(vec![])), "Nothing");
    assert_eq!(debug_non_default("Nothing", &Fields::Unnamed(vec![])), "Nothing");
}

#[test]
fn single_fields_have_no_separator() {
    let one = Fields::Named(vec![named("only", &5u8)]);
    assert_eq!(debug_non_default("One", &one), "One { only: 5 }");
    let wrapped = Fields::Unnamed(vec![unnamed(&5u8)]);
    assert_eq!(debug_non_default("Wrapper", &wrapped), "Wrapper(5)");
    let hidden = Fields::Unnamed(vec![unnamed(&0u8)]);
    assert_eq!(debug_non_default("Wrapper", &hidden), "Wrapper(_)");
}

#[test]
fn rendering_agrees_with_the_standard_form_when_nothing_is_default() {
    #[derive(Debug)]
    #[allow(dead_code)]
    struct Pair {
        left: u8,
        right: String,
    }
    let pair = Pair { left: 3, right: "x".to_string() };
    let fields = Fields::Named(vec![named("left", &pair.left), named("right", &pair.right)]);
    assert_eq!(debug_non_default("Pair", &fields), format!("{:?}", pair));

    #[derive(Debug)]
    struct Triple(u8, i32, bool);
    let triple = Triple(1, -2, true);
    let fields = Fields::Unnamed(vec![unnamed(&triple.0), unnamed(&triple.1), unnamed(&triple.2)]);
    assert_eq!(debug_non_default("Triple", &fields), format!("{:?}", triple));
}
