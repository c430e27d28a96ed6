use policy_engine::auth::AuthError;
use policy_engine::auth::bearer_token;
use policy_engine::data_model::CreationResult;
use policy_engine::data_model::DeletionResult;
use policy_engine::data_model::Friendship;
use policy_engine::data_model::FriendshipStatus;
use policy_engine::data_model::UpdateProfileRequest;
use policy_engine::data_model::UpdateResult;
use policy_engine::data_model::UsersFriendsOrIdentical;
use policy_engine::lambda::HttpAction;
use policy_engine::lambda::Lambda;
use policy_engine::token::tokenize;
use policy_engine::util::accept_friendship;
use policy_engine::lambda::handler_message;
use policy_engine::util::conversation_id;
use policy_engine::util::create_friendship;
use policy_engine::util::delete_friendship;
use policy_engine::util::friend_sort_key;
use policy_engine::util::message_keys;
use policy_engine::util::strip_prefix_text;
use policy_engine::util::update_profile_expression;
use policy_engine::util::user_id;
use policy_engine::util::users_are_friends_or_identical;

#[test]
fn conversation_id_orders_the_smaller_user_first() {
    assert_eq!(conversation_id("123", "456"), "CONVERSATION#123#456");
    assert_eq!(conversation_id("456", "123"), "CONVERSATION#123#456");
    assert_eq!(conversation_id("abc", "abc"), "CONVERSATION#abc#abc");
}

#[test]
fn key_builders_prefix_their_identifiers() {
    assert_eq!(user_id("42"), "USER#42");
    assert_eq!(friend_sort_key("99"), "FRIEND#99");
    let (pk, sk) = message_keys("b", "a", "2024-01-01T00:00:00Z");
    assert_eq!(pk, "CONVERSATION#a#b");
    assert_eq!(sk, "MSG#2024-01-01T00:00:00Z");
}

#[test]
fn strip_prefix_text_splits_exactly() {
    assert_eq!(
        strip_prefix_text("auth0|user1", "auth0|"),
        Some("user1".to_string())
    );
    assert_eq!(strip_prefix_text("user1", "auth0|"), None);
    assert_eq!(strip_prefix_text("auth0|", "auth0|"), Some(String::new()));
}

#[test]
fn bearer_token_requires_the_bearer_prefix() {
    assert_eq!(bearer_token("Bearer abc.def"), Ok("abc.def".to_string()));
    assert_eq!(bearer_token("Basic abc"), Err(AuthError::InvalidToken));
    assert_eq!(bearer_token(""), Err(AuthError::InvalidToken));
}

#[test]
fn auth_errors_answer_unauthorized() {
    assert_eq!(AuthError::MissingToken.status(), 401);
    assert_eq!(AuthError::MissingToken.message(), "Missing authorization token");
    assert_eq!(AuthError::InvalidToken.message(), "Invalid token");
}

#[test]
fn relation_classification_covers_all_cases() {
    assert!(matches!(
        users_are_friends_or_identical("a", "a", None),
        UsersFriendsOrIdentical::Identical
    ));
    assert!(matches!(
        users_are_friends_or_identical("a", "b", Some(FriendshipStatus::Accepted)),
        UsersFriendsOrIdentical::Friends
    ));
    assert!(matches!(
        users_are_friends_or_identical("a", "b", Some(FriendshipStatus::Pending)),
        UsersFriendsOrIdentical::Unrelated
    ));
    assert!(matches!(
        users_are_friends_or_identical("a", "b", None),
        UsersFriendsOrIdentical::Unrelated
    ));
}

#[test]
fn friendship_creation_conflicts_are_detected() {
    assert_eq!(create_friendship("a", "a", false, false), CreationResult::Conflict);
    assert_eq!(create_friendship("a", "b", true, false), CreationResult::Conflict);
    assert_eq!(create_friendship("a", "b", false, true), CreationResult::Conflict);
    assert_eq!(create_friendship("a", "b", false, false), CreationResult::Success);
}

#[test]
fn friendship_acceptance_depends_on_the_reverse_request() {
    assert_eq!(
        accept_friendship(UsersFriendsOrIdentical::Unrelated, true),
        UpdateResult::Success(Friendship { status: FriendshipStatus::Accepted })
    );
    assert_eq!(
        accept_friendship(UsersFriendsOrIdentical::Unrelated, false),
        UpdateResult::NotFound
    );
    assert_eq!(
        accept_friendship(UsersFriendsOrIdentical::Friends, true),
        UpdateResult::EmptyUpdate
    );
    assert_eq!(
        accept_friendship(UsersFriendsOrIdentical::Identical, false),
        UpdateResult::EmptyUpdate
    );
}

#[test]
fn friendship_deletion_needs_an_existing_record() {
    assert_eq!(delete_friendship("a", "a", true, true), DeletionResult::NotFound);
    assert_eq!(delete_friendship("a", "b", false, false), DeletionResult::NotFound);
    assert_eq!(delete_friendship("a", "b", true, false), DeletionResult::Success);
    assert_eq!(delete_friendship("a", "b", false, true), DeletionResult::Success);
    assert_eq!(delete_friendship("a", "b", true, true), DeletionResult::Success);
}

#[test]
fn update_expression_names_each_changed_field() {
    let both = UpdateProfileRequest {
        full_name: Some("Ada".to_string()),
        email: Some("ada@example.com".to_string()),
    };
    let (expr, bindings) = update_profile_expression(&both).unwrap();
    assert_eq!(expr, "SET full_name = :n, email = :e");
    assert_eq!(
        bindings,
        vec![
            (":n".to_string(), "Ada".to_string()),
            (":e".to_string(), "ada@example.com".to_string()),
        ]
    );

    let name_only = UpdateProfileRequest {
        full_name: Some("Ada".to_string()),
        email: None,
    };
    let (expr, bindings) = update_profile_expression(&name_only).unwrap();
    assert_eq!(expr, "SET full_name = :n");
    assert_eq!(bindings, vec![(":n".to_string(), "Ada".to_string())]);

    let email_only = UpdateProfileRequest {
        full_name: None,
        email: Some("ada@example.com".to_string()),
    };
    let (expr, bindings) = update_profile_expression(&email_only).unwrap();
    assert_eq!(expr, "SET email = :e");
    assert_eq!(bindings, vec![(":e".to_string(), "ada@example.com".to_string())]);

    let empty = UpdateProfileRequest { full_name: None, email: None };
    assert_eq!(update_profile_expression(&empty), None);
}

#[test]
fn http_actions_round_trip_through_their_names() {
    for action in [
        HttpAction::GET,
        HttpAction::POST,
        HttpAction::PUT,
        HttpAction::DELETE,
    ] {
        assert_eq!(HttpAction::from_str(action.as_str()), Ok(action));
    }
    assert!(HttpAction::from_str("PATCH").is_err());
    assert!(HttpAction::from_str("get").is_err());
}

#[test]
fn lambda_annotation_parses_with_and_without_comma() {
    let with_comma = tokenize("GET, \"mypath\"").unwrap();
    let (lambda, consumed) = Lambda::parse(&with_comma, 0).unwrap();
    assert_eq!(lambda.http_action, HttpAction::GET);
    assert_eq!(lambda.path, "mypath");
    assert_eq!(consumed, 3);
    let without_comma = tokenize("POST \"other\"").unwrap();
    let (lambda, _) = Lambda::parse(&without_comma, 0).unwrap();
    assert_eq!(lambda.http_action, HttpAction::POST);
    assert_eq!(lambda.path, "other");
    assert!(Lambda::parse(&tokenize("PATCH \"x\"").unwrap(), 0).is_err());
}

#[test]
fn handler_message_embeds_name_and_contents() {
    assert_eq!(
        handler_message("world", "hi"),
        "Hello world, this is an AWS Lambda HTTP request. File contents: hi"
    );
}
