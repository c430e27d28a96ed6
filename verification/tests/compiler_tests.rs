use policy_engine::compiler::PolicyCompiler;
use policy_engine::iam_policy_compiler::IamPolicyCompiler;
use policy_engine::policy::Action;
use policy_engine::policy::Field;
use policy_engine::policy::Filter;
use policy_engine::policy::Key;
use policy_engine::policy::Policy;
use policy_engine::policy::PolicyAtom;
use policy_engine::policy::Resource;
use policy_engine::policy::StringExpr;
use policy_engine::policy::Var;

fn atom(action: Action, table: &str) -> PolicyAtom {
    PolicyAtom {
        action,
        resource: Resource::Table(table.to_string()),
        filters: vec![],
        attributes: None,
    }
}

#[test]
fn compiles_a_bare_atom_to_one_statement() {
    let compiler = IamPolicyCompiler {};
    let document = compiler.compile_policy(&Policy::Atom(atom(Action::Create, "Users")));
    assert_eq!(
        document,
        "{\"Version\":\"2012-10-17\",\"Statement\":[\
         {\"Effect\":\"Allow\",\"Action\":\"dynamodb:PutItem\",\
         \"Resource\":\"arn:aws:dynamodb:*:*:table/Users\"}]}"
    );
}

#[test]
fn compiles_filters_into_a_condition_list() {
    let compiler = IamPolicyCompiler {};
    let policy = Policy::Atom(PolicyAtom {
        action: Action::Read,
        resource: Resource::Table("Users".to_string()),
        filters: vec![Filter::KeyEquals(
            Key::Pk,
            StringExpr::Literal("USER#123".to_string()),
        )],
        attributes: None,
    });
    assert_eq!(
        compiler.compile_policy(&policy),
        "{\"Version\":\"2012-10-17\",\"Statement\":[\
         {\"Effect\":\"Allow\",\"Action\":\"dynamodb:GetItem\",\
         \"Resource\":\"arn:aws:dynamodb:*:*:table/Users\",\
         \"Condition\":[{\"StringEquals\":{\"dynamodb:LeadingKeys\":[\"USER#123\"]}}]}]}"
    );
}

#[test]
fn resolves_concat_and_variables_left_to_right() {
    let compiler = IamPolicyCompiler {};
    let policy = Policy::Atom(PolicyAtom {
        action: Action::Delete,
        resource: Resource::Table("Orders".to_string()),
        filters: vec![Filter::KeyLike(
            Key::Sk,
            StringExpr::Concat(
                Box::new(StringExpr::Literal("ORDER#".to_string())),
                Box::new(StringExpr::Variable(Var(vec![
                    "caller".to_string(),
                    "id".to_string(),
                ]))),
            ),
        )],
        attributes: None,
    });
    assert_eq!(
        compiler.compile_policy(&policy),
        "{\"Version\":\"2012-10-17\",\"Statement\":[\
         {\"Effect\":\"Allow\",\"Action\":\"dynamodb:DeleteItem\",\
         \"Resource\":\"arn:aws:dynamodb:*:*:table/Orders\",\
         \"Condition\":[{\"StringLike\":{\"dynamodb:RangeKeys\":[\"ORDER#${caller.id}\"]}}]}]}"
    );
}

#[test]
fn attribute_clause_keeps_some_empty_distinct_from_none() {
    let compiler = IamPolicyCompiler {};
    let mut restricted = atom(Action::Read, "Users");
    restricted.attributes = Some(vec![]);
    let unrestricted = atom(Action::Read, "Users");
    let restricted_doc = compiler.compile_policy(&Policy::Atom(restricted));
    let unrestricted_doc = compiler.compile_policy(&Policy::Atom(unrestricted));
    assert!(restricted_doc.contains("\"Attributes\":[]"));
    assert!(!unrestricted_doc.contains("Attributes"));
}

#[test]
fn attribute_names_are_listed_in_order() {
    let compiler = IamPolicyCompiler {};
    let mut with_fields = atom(Action::Update, "Users");
    with_fields.attributes = Some(vec![
        Field("full_name".to_string()),
        Field("email".to_string()),
    ]);
    let document = compiler.compile_policy(&Policy::Atom(with_fields));
    assert!(document.contains("\"Attributes\":[\"full_name\",\"email\"]"));
}

#[test]
fn quotes_and_backslashes_are_escaped() {
    let compiler = IamPolicyCompiler {};
    let policy = Policy::Atom(PolicyAtom {
        action: Action::Read,
        resource: Resource::Table("T".to_string()),
        filters: vec![Filter::KeyEquals(
            Key::Pk,
            StringExpr::Literal("a\"b\\c".to_string()),
        )],
        attributes: None,
    });
    assert!(compiler
        .compile_policy(&policy)
        .contains("[\"a\\\"b\\\\c\"]"));
}

#[test]
fn composite_of_three_atoms_yields_three_statements() {
    let compiler = IamPolicyCompiler {};
    let policy = Policy::Composite(vec![
        atom(Action::Create, "A"),
        atom(Action::Read, "B"),
        atom(Action::Update, "C"),
    ]);
    let document = compiler.compile_policy(&policy);
    assert_eq!(document.matches("\"Effect\":\"Allow\"").count(), 3);
    // Each statement is traceable to its own atom, in order.
    let a: usize = document.find("table/A").unwrap();
    let b: usize = document.find("table/B").unwrap();
    let c: usize = document.find("table/C").unwrap();
    assert!(a < b && b < c);
    assert!(document.contains("dynamodb:PutItem"));
    assert!(document.contains("dynamodb:GetItem"));
    assert!(document.contains("dynamodb:UpdateItem"));
}

#[test]
fn compilation_is_deterministic() {
    let compiler = IamPolicyCompiler {};
    let policy = Policy::Composite(vec![atom(Action::Create, "A"), atom(Action::Read, "B")]);
    assert_eq!(
        compiler.compile_policy(&policy),
        compiler.compile_policy(&policy)
    );
}
