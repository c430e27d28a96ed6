use policy_engine::policy::Action;
use policy_engine::policy::Field;
use policy_engine::policy::Filter;
use policy_engine::policy::Key;
use policy_engine::policy::Policy;
use policy_engine::policy::PolicyAtom;
use policy_engine::policy::Resource;
use policy_engine::policy::StringExpr;
use policy_engine::policy::Var;

fn atom(
    action: Action,
    table: &str,
    filters: Vec<Filter>,
    attributes: Option<Vec<Field>>,
) -> PolicyAtom {
    PolicyAtom {
        action,
        resource: Resource::Table(table.to_string()),
        filters,
        attributes,
    }
}

#[test]
fn parses_bare_create_atom() {
    let parsed = Policy::parse_text("allow create table \"Users\"").unwrap();
    assert_eq!(
        parsed,
        Policy::Atom(atom(Action::Create, "Users", vec![], None))
    );
}

#[test]
fn parses_atom_with_on_keyword() {
    let with_on = Policy::parse_text("allow create on table \"Users\"").unwrap();
    let without = Policy::parse_text("allow create table \"Users\"").unwrap();
    assert_eq!(with_on, without);
}

#[test]
fn parses_key_equals_filter() {
    let parsed =
        Policy::parse_text("allow read table \"Users\" where key_equals $pk \"USER#123\"")
            .unwrap();
    assert_eq!(
        parsed,
        Policy::Atom(atom(
            Action::Read,
            "Users",
            vec![Filter::KeyEquals(
                Key::Pk,
                StringExpr::Literal("USER#123".to_string())
            )],
            None,
        ))
    );
}

#[test]
fn parses_attribute_clause() {
    let parsed =
        Policy::parse_text("allow read table \"Users\" with attributes [\"full_name\",\"email\"]")
            .unwrap();
    assert_eq!(
        parsed,
        Policy::Atom(atom(
            Action::Read,
            "Users",
            vec![],
            Some(vec![
                Field("full_name".to_string()),
                Field("email".to_string())
            ]),
        ))
    );
}

#[test]
fn empty_attribute_list_stays_distinct_from_none() {
    let denied = Policy::parse_text("allow read table \"Users\" with attributes []").unwrap();
    assert_eq!(
        denied,
        Policy::Atom(atom(Action::Read, "Users", vec![], Some(vec![])))
    );
    let unrestricted = Policy::parse_text("allow read table \"Users\"").unwrap();
    assert_ne!(denied, unrestricted);
}

#[test]
fn two_atoms_make_a_composite() {
    let parsed =
        Policy::parse_text("allow create table \"A\" allow read table \"B\"").unwrap();
    assert_eq!(
        parsed,
        Policy::Composite(vec![
            atom(Action::Create, "A", vec![], None),
            atom(Action::Read, "B", vec![], None),
        ])
    );
    assert!(!matches!(parsed, Policy::Atom(_)));
}

#[test]
fn empty_input_is_a_grammar_error() {
    assert!(Policy::parse_text("").is_err());
    assert!(Policy::parse_text("   \n\t ").is_err());
}

#[test]
fn malformed_first_atom_is_a_grammar_error() {
    assert!(Policy::parse_text("allow frobnicate table \"A\"").is_err());
    assert!(Policy::parse_text("deny create table \"A\"").is_err());
    assert!(Policy::parse_text("allow create table").is_err());
}

#[test]
fn unknown_key_is_a_grammar_error() {
    assert!(
        Policy::parse_text("allow read table \"T\" where key_equals $name \"x\"").is_err()
    );
}

#[test]
fn unterminated_literal_is_an_error() {
    assert!(Policy::parse_text("allow create table \"Users").is_err());
    assert!(Policy::parse_text("allow create table \"U\\sers\"").is_err());
}

#[test]
fn malformed_trailing_atom_truncates_the_policy() {
    // The greedy atom loop stops at the first atom that does not parse
    // and ignores the rest of the input.
    let parsed = Policy::parse_text("allow create table \"A\" allow bogus").unwrap();
    assert_eq!(parsed, Policy::Atom(atom(Action::Create, "A", vec![], None)));
}

#[test]
fn parses_variables_and_concat() {
    let parsed = Policy::parse_text(
        "allow read table \"Orders\" where key_like $sk concat(\"ORDER#\", $caller.id)",
    )
    .unwrap();
    let expected_value = StringExpr::Concat(
        Box::new(StringExpr::Literal("ORDER#".to_string())),
        Box::new(StringExpr::Variable(Var(vec![
            "caller".to_string(),
            "id".to_string(),
        ]))),
    );
    assert_eq!(
        parsed,
        Policy::Atom(atom(
            Action::Read,
            "Orders",
            vec![Filter::KeyLike(Key::Sk, expected_value)],
            None,
        ))
    );
}

#[test]
fn single_segment_variable_parses() {
    let parsed =
        Policy::parse_text("allow read table \"T\" where key_equals $pk $tenant").unwrap();
    assert_eq!(
        parsed,
        Policy::Atom(atom(
            Action::Read,
            "T",
            vec![Filter::KeyEquals(
                Key::Pk,
                StringExpr::Variable(Var(vec!["tenant".to_string()]))
            )],
            None,
        ))
    );
}

#[test]
fn all_actions_parse() {
    for (word, action) in [
        ("create", Action::Create),
        ("read", Action::Read),
        ("update", Action::Update),
        ("delete", Action::Delete),
    ] {
        let text = format!("allow {} table \"T\"", word);
        let parsed = Policy::parse_text(&text).unwrap();
        assert_eq!(parsed, Policy::Atom(atom(action, "T", vec![], None)));
    }
}

#[test]
fn render_then_parse_returns_the_same_policy() {
    let policies = vec![
        Policy::Atom(atom(Action::Create, "Users", vec![], None)),
        Policy::Atom(atom(
            Action::Read,
            "Users",
            vec![
                Filter::KeyEquals(Key::Pk, StringExpr::Literal("USER#123".to_string())),
                Filter::KeyLike(
                    Key::Sk,
                    StringExpr::Concat(
                        Box::new(StringExpr::Literal("MSG#".to_string())),
                        Box::new(StringExpr::Variable(Var(vec![
                            "caller".to_string(),
                            "id".to_string(),
                        ]))),
                    ),
                ),
            ],
            Some(vec![Field("text".to_string())]),
        )),
        Policy::Composite(vec![
            atom(Action::Create, "A", vec![], Some(vec![])),
            atom(Action::Delete, "B", vec![], None),
        ]),
    ];
    for policy in policies {
        let tokens = policy.render();
        let reparsed = Policy::parse(&tokens).unwrap();
        assert_eq!(reparsed, policy);
        let text = policy_engine::token::render_to_text(&tokens);
        let reparsed_from_text = Policy::parse_text(&text).unwrap();
        assert_eq!(reparsed_from_text, policy);
    }
}

#[test]
fn grammar_error_names_the_position() {
    let err = Policy::parse_text("allow grant table \"T\"").unwrap_err();
    assert_eq!(err.pos, 1);
    assert!(!err.expected.is_empty());
}
