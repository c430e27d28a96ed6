//! The computation and decision core of the messaging service: the
//! key-schema builders for the keyed store, and the decisions that the
//! request handlers act on. The handlers themselves only perform the
//! store calls and hand the stored values back in.

use vstd::prelude::*;
use vstd::string::StrSliceExecFns;
use vstd::string::StringExecFns;

use crate::data_model::CreationResult;
use crate::data_model::DeletionResult;
use crate::data_model::Friendship;
use crate::data_model::FriendshipStatus;
use crate::data_model::UpdateProfileRequest;
use crate::data_model::UpdateResult;
use crate::data_model::UsersFriendsOrIdentical;
use crate::policy::string_views;
use crate::text::join_with;
use crate::token::chars_to_string;
use crate::token::copy_range;
use crate::token::str_eq;
use crate::token::str_to_chars;

verus! {

/// Strict lexicographic order on texts, by character code — the order
/// of Rust's `str` comparison.
pub open spec fn lex_lt(a: Seq<char>, b: Seq<char>) -> bool
    decreases a.len(),
{
    if b.len() == 0 {
        false
    } else if a.len() == 0 {
        true
    } else if a[0] != b[0] {
        (a[0] as u32) < (b[0] as u32)
    } else {
        lex_lt(a.drop_first(), b.drop_first())
    }
}

/// True exactly when `a` comes strictly before `b` in lexicographic
/// order.
pub fn str_lt(a: &str, b: &str) -> (r: bool)
    ensures
        r == lex_lt(a@, b@),
{
    let n = a.unicode_len();
    let m = b.unicode_len();
    let mut i: usize = 0;
    proof {
        assert(a@.subrange(0, n as int) =~= a@);
        assert(b@.subrange(0, m as int) =~= b@);
    }
    while i < n && i < m
        invariant
            n == a@.len(),
            m == b@.len(),
            i <= n,
            i <= m,
            lex_lt(a@, b@) == lex_lt(
                a@.subrange(i as int, n as int),
                b@.subrange(i as int, m as int),
            ),
        decreases n - i,
    {
        let ghost asub = a@.subrange(i as int, n as int);
        let ghost bsub = b@.subrange(i as int, m as int);
        let ca = a.get_char(i);
        let cb = b.get_char(i);
        if ca != cb {
            proof {
                assert(asub[0] == a@[i as int]);
                assert(bsub[0] == b@[i as int]);
            }
            return (ca as u32) < (cb as u32);
        }
        i = i + 1;
        proof {
            assert(asub[0] == a@[i - 1]);
            assert(bsub[0] == b@[i - 1]);
            assert(asub.drop_first() =~= a@.subrange(i as int, n as int));
            assert(bsub.drop_first() =~= b@.subrange(i as int, m as int));
        }
    }
    if i >= m {
        proof {
            assert(b@.subrange(i as int, m as int).len() == 0);
        }
        false
    } else {
        proof {
            assert(a@.subrange(i as int, n as int).len() == 0);
            assert(b@.subrange(i as int, m as int).len() > 0);
        }
        true
    }
}

/// The conversation key of two users: the smaller identifier first, so
/// that both directions name the same conversation.
pub open spec fn conversation_id_spec(a: Seq<char>, b: Seq<char>) -> Seq<char> {
    if lex_lt(a, b) {
        "CONVERSATION#"@ + a + "#"@ + b
    } else {
        "CONVERSATION#"@ + b + "#"@ + a
    }
}

/// The partition key of the conversation between two users.
pub fn conversation_id(user_id1: &str, user_id2: &str) -> (r: String)
    ensures
        r@ == conversation_id_spec(user_id1@, user_id2@),
{
    let mut out = String::new();
    out.append("CONVERSATION#");
    if str_lt(user_id1, user_id2) {
        out.append(user_id1);
        out.append("#");
        out.append(user_id2);
    } else {
        out.append(user_id2);
        out.append("#");
        out.append(user_id1);
    }
    proof {
        assert(out@ =~= conversation_id_spec(user_id1@, user_id2@));
    }
    out
}

/// The partition key of a user's records.
pub fn user_id(id: &str) -> (r: String)
    ensures
        r@ == "USER#"@ + id@,
{
    let mut out = String::new();
    out.append("USER#");
    out.append(id);
    out
}

/// The sort key of the friendship record pointing at this user.
pub fn friend_sort_key(user: &str) -> (r: String)
    ensures
        r@ == "FRIEND#"@ + user@,
{
    let mut out = String::new();
    out.append("FRIEND#");
    out.append(user);
    out
}

/// The keys of one stored message: the conversation key of the two
/// users, and the message sort key for the given timestamp text.
pub fn message_keys(user_a: &str, user_b: &str, timestamp: &str) -> (r: (String, String))
    ensures
        r.0@ == conversation_id_spec(user_a@, user_b@),
        r.1@ == "MSG#"@ + timestamp@,
{
    let pk = conversation_id(user_a, user_b);
    let mut sk = String::new();
    sk.append("MSG#");
    sk.append(timestamp);
    (pk, sk)
}

/// The text after the prefix, where the text starts with it.
pub fn strip_prefix_text(s: &str, prefix: &str) -> (r: Option<String>)
    ensures
        match r {
            Option::Some(t) => s@ == prefix@ + t@,
            Option::None => !(s@.len() >= prefix@.len() && s@.subrange(
                0,
                prefix@.len() as int,
            ) == prefix@),
        },
{
    let n = s.unicode_len();
    let m = prefix.unicode_len();
    if n < m {
        proof {
            if s@.len() >= prefix@.len() {
                assert(false);
            }
        }
        return Option::None;
    }
    let mut i: usize = 0;
    while i < m
        invariant
            n == s@.len(),
            m == prefix@.len(),
            m <= n,
            i <= m,
            forall|k: int| 0 <= k < i ==> s@[k] == prefix@[k],
        decreases m - i,
    {
        if s.get_char(i) != prefix.get_char(i) {
            proof {
                if s@.subrange(0, prefix@.len() as int) == prefix@ {
                    assert(s@.subrange(0, prefix@.len() as int)[i as int] == s@[i as int]);
                    assert(false);
                }
            }
            return Option::None;
        }
        i = i + 1;
    }
    let cs = str_to_chars(s);
    let rest = copy_range(&cs, m, cs.len());
    proof {
        assert(s@ =~= prefix@ + s@.subrange(m as int, n as int));
    }
    Option::Some(rest)
}

/// How two users relate, given the stored friendship record from the
/// first towards the second (if any): the same user is `Identical`, an
/// accepted record makes them `Friends`, and a pending or missing
/// record leaves them `Unrelated`.
pub fn users_are_friends_or_identical(
    user_a: &str,
    user_b: &str,
    stored: Option<FriendshipStatus>,
) -> (r: UsersFriendsOrIdentical)
    ensures
        user_a@ == user_b@ ==> r is Identical,
        user_a@ != user_b@ && stored == Option::Some(FriendshipStatus::Accepted) ==> r
            is Friends,
        user_a@ != user_b@ && stored != Option::Some(FriendshipStatus::Accepted) ==> r
            is Unrelated,
{
    if str_eq(user_a, user_b) {
        UsersFriendsOrIdentical::Identical
    } else {
        match stored {
            Option::Some(FriendshipStatus::Accepted) => UsersFriendsOrIdentical::Friends,
            Option::Some(FriendshipStatus::Pending) => UsersFriendsOrIdentical::Unrelated,
            Option::None => UsersFriendsOrIdentical::Unrelated,
        }
    }
}

/// Whether a friend request from the first user to the second may be
/// created, given whether a request already exists in either direction:
/// a request to oneself, or beside an existing request, is a conflict;
/// otherwise the caller stores a pending record.
pub fn create_friendship(
    user_a: &str,
    user_b: &str,
    request_ab_exists: bool,
    request_ba_exists: bool,
) -> (r: CreationResult)
    ensures
        r is Conflict <==> (user_a@ == user_b@ || request_ab_exists || request_ba_exists),
        r is Success <==> !(user_a@ == user_b@ || request_ab_exists || request_ba_exists),
{
    if str_eq(user_a, user_b) || request_ab_exists || request_ba_exists {
        CreationResult::Conflict
    } else {
        CreationResult::Success
    }
}

/// Whether an incoming friend request may be accepted, given how the
/// two users relate and whether the reverse request exists: users that
/// already relate get an empty update, a present reverse request is
/// accepted (the caller stores both records as accepted), and a missing
/// one is not found.
pub fn accept_friendship(
    relation: UsersFriendsOrIdentical,
    reverse_request_exists: bool,
) -> (r: UpdateResult<Friendship>)
    ensures
        !(relation is Unrelated) ==> r is EmptyUpdate,
        relation is Unrelated && reverse_request_exists ==> r == UpdateResult::Success(
            Friendship { status: FriendshipStatus::Accepted },
        ),
        relation is Unrelated && !reverse_request_exists ==> r is NotFound,
{
    match relation {
        UsersFriendsOrIdentical::Unrelated => {
            if reverse_request_exists {
                UpdateResult::Success(Friendship { status: FriendshipStatus::Accepted })
            } else {
                UpdateResult::NotFound
            }
        },
        _ => UpdateResult::EmptyUpdate,
    }
}

/// Whether a friendship may be deleted, given which of the two records
/// exist: deleting succeeds exactly where the users differ and at least
/// one record exists (the caller deletes every existing record).
pub fn delete_friendship(
    user_a: &str,
    user_b: &str,
    request_ab_exists: bool,
    request_ba_exists: bool,
) -> (r: DeletionResult)
    ensures
        r is Success <==> (user_a@ != user_b@ && (request_ab_exists || request_ba_exists)),
        r is NotFound <==> !(user_a@ != user_b@ && (request_ab_exists || request_ba_exists)),
{
    if str_eq(user_a, user_b) {
        DeletionResult::NotFound
    } else if request_ab_exists || request_ba_exists {
        DeletionResult::Success
    } else {
        DeletionResult::NotFound
    }
}

/// The update expression of a partial profile update: `None` where the
/// request changes nothing, else the expression text and its value
/// bindings, one per changed field, name before email.
pub fn update_profile_expression(request: &UpdateProfileRequest) -> (r: Option<
    (String, Vec<(String, String)>),
>)
    ensures
        match r {
            Option::None => request.full_name is None && request.email is None,
            Option::Some(pair) => {
                &&& !(request.full_name is None && request.email is None)
                &&& (request.full_name is Some && request.email is Some ==> {
                    &&& pair.0@ == "SET full_name = :n, email = :e"@
                    &&& pair.1@.len() == 2
                    &&& pair.1@[0].0@ == ":n"@
                    &&& pair.1@[0].1@ == request.full_name->0@
                    &&& pair.1@[1].0@ == ":e"@
                    &&& pair.1@[1].1@ == request.email->0@
                })
                &&& (request.full_name is Some && request.email is None ==> {
                    &&& pair.0@ == "SET full_name = :n"@
                    &&& pair.1@.len() == 1
                    &&& pair.1@[0].0@ == ":n"@
                    &&& pair.1@[0].1@ == request.full_name->0@
                })
                &&& (request.full_name is None && request.email is Some ==> {
                    &&& pair.0@ == "SET email = :e"@
                    &&& pair.1@.len() == 1
                    &&& pair.1@[0].0@ == ":e"@
                    &&& pair.1@[0].1@ == request.email->0@
                })
            },
        },
{
    let mut parts: Vec<String> = Vec::new();
    let mut bindings: Vec<(String, String)> = Vec::new();
    match &request.full_name {
        Option::Some(name) => {
            parts.push("full_name = :n".to_owned());
            bindings.push((":n".to_owned(), name.clone()));
        },
        Option::None => {},
    }
    match &request.email {
        Option::Some(email) => {
            parts.push("email = :e".to_owned());
            bindings.push((":e".to_owned(), email.clone()));
        },
        Option::None => {},
    }
    if parts.len() == 0 {
        return Option::None;
    }
    let joined = crate::text::join_strings(&parts, ", ");
    let mut expr = String::new();
    expr.append("SET ");
    expr.append(joined.as_str());
    proof {
        lemma_update_expression_text();
        if request.full_name is Some && request.email is Some {
            let pv = seq!["full_name = :n"@, "email = :e"@];
            assert(string_views(parts@) =~= pv);
            assert(pv.drop_first() =~= seq!["email = :e"@]);
            assert(join_with(pv.drop_first(), ", "@) == "email = :e"@);
            assert(join_with(pv, ", "@) == ("full_name = :n"@ + ", "@) + "email = :e"@);
            assert(expr@ =~= "SET "@ + (("full_name = :n"@ + ", "@) + "email = :e"@));
        } else if request.full_name is Some {
            assert(string_views(parts@) =~= seq!["full_name = :n"@]);
            assert(join_with(string_views(parts@), ", "@) == "full_name = :n"@);
            assert(expr@ =~= "SET "@ + "full_name = :n"@);
        } else {
            assert(string_views(parts@) =~= seq!["email = :e"@]);
            assert(join_with(string_views(parts@), ", "@) == "email = :e"@);
            assert(expr@ =~= "SET "@ + "email = :e"@);
        }
    }
    Option::Some((expr, bindings))
}

/// The three update expressions, written out: the concatenations that
/// the builder produces are exactly these texts.
proof fn lemma_update_expression_text()
    ensures
        "SET "@ + (("full_name = :n"@ + ", "@) + "email = :e"@)
            == "SET full_name = :n, email = :e"@,
        "SET "@ + "full_name = :n"@ == "SET full_name = :n"@,
        "SET "@ + "email = :e"@ == "SET email = :e"@,
{
    reveal_strlit("SET ");
    reveal_strlit("full_name = :n");
    reveal_strlit("email = :e");
    reveal_strlit(", ");
    reveal_strlit("SET full_name = :n, email = :e");
    reveal_strlit("SET full_name = :n");
    reveal_strlit("SET email = :e");
    assert("SET "@ + (("full_name = :n"@ + ", "@) + "email = :e"@)
        =~= "SET full_name = :n, email = :e"@);
    assert("SET "@ + "full_name = :n"@ =~= "SET full_name = :n"@);
    assert("SET "@ + "email = :e"@ =~= "SET email = :e"@);
}

} // verus!
