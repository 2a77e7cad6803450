//! What becomes of users and their permissions.
use crate::access_control::{
    action_word, changed, granted, is_right, lemma_revoked, payload_scope, payload_username,
    permissions_of, registry_read, rights_from, scope_parsed, scope_rights, user_managed, users_of,
};
use crate::error::ErrorKind;
use crate::text::{ascii_lower, lower_char, replaced, split_parts, trimmed};
use crate::value::{parsed_json, without_text, Json};
use vstd::prelude::*;

verus! {

/// What a registry holds of a user.
pub open spec fn entry_of(registry: Json, user: Seq<char>) -> Option<Json> {
    match registry.get("users"@) {
        Some(users) => users.get(user),
        None => None,
    }
}

/// Whether a user has a permission.
pub open spec fn has_permission(registry: Json, user: Seq<char>, scope: Seq<char>) -> bool {
    entry_of(registry, user) matches Some(entry) && (entry.get("permissions"@) matches Some(
        Json::Array(items),
    ) && items.contains(Json::Text(scope)))
}

/// The user of a request is the one that its payload names under `username`, or where there is no
/// such field, under `user`, without the space around the name. One without a name is refused.
pub proof fn law_payload_names_the_user(payload: Json)
    ensures
        match payload_username(payload) {
            Ok(name) => name.len() > 0 && match payload.get("username"@) {
                Some(Json::Text(s)) => name == trimmed(s),
                Some(_) => false,
                None => payload.get_text("user"@) matches Some(s) && name == trimmed(s),
            },
            Err(f) => f.kind == ErrorKind::InvalidInput && match payload.get("username"@) {
                Some(Json::Text(s)) => trimmed(s).len() == 0,
                Some(_) => true,
                None => payload.get_text("user"@) matches Some(s) ==> trimmed(s).len() == 0,
            },
        },
{
}

/// The scope of a request is the one that its payload spells, whole or as a path and rights.
pub proof fn law_payload_spells_the_scope(payload: Json)
    ensures
        payload.get("permission_scope"@) matches Some(Json::Text(s)) ==> payload_scope(payload)
            == scope_parsed(s),
        !(payload.get("permission_scope"@) matches Some(Json::Text(_))) ==> match payload.get(
            "scope"@,
        ) {
            Some(Json::Object(fields)) => (fields.dom().contains("path"@) && fields["path"@] is Text
                && fields.dom().contains("rights"@) && fields["rights"@] is Text) ==> payload_scope(
                payload,
            ) == scope_parsed(
                fields["path"@]->Text_0 + ":"@ + fields["rights"@]->Text_0,
            ),
            _ => payload_scope(payload) is Err,
        },
{
}

/// Whether characters stand for rights, each for another one.
pub open spec fn are_rights(chars: Seq<char>) -> bool {
    &&& forall|i: int|
        0 <= i < chars.len() ==> (lower_char(#[trigger] chars[i]) == 'r' || lower_char(chars[i])
            == 'u' || lower_char(chars[i]) == 'd' || lower_char(chars[i]) == 'i')
    &&& forall|i: int, j: int|
        0 <= i < j < chars.len() ==> lower_char(#[trigger] chars[i]) != lower_char(
            #[trigger] chars[j],
        )
}

proof fn lemma_rights_exact(chars: Seq<char>, i: int, done: Seq<char>)
    requires
        0 <= i <= chars.len(),
        done.len() == i,
        forall|k: int| 0 <= k < i ==> #[trigger] done[k] == lower_char(chars[k]),
        are_rights(chars.take(i)),
    ensures
        match rights_from(chars, i, done) {
            Ok(rights) => are_rights(chars) && rights.len() == chars.len() && forall|k: int|
                0 <= k < chars.len() ==> #[trigger] rights[k] == lower_char(chars[k]),
            Err(f) => !are_rights(chars) && f.kind == ErrorKind::InvalidInput,
        },
    decreases chars.len() - i,
{
    if i < chars.len() {
        let right = lower_char(chars[i]);
        let more = chars.take(i + 1);
        assert(forall|k: int| 0 <= k < i ==> #[trigger] more[k] == chars.take(i)[k]);
        if is_right(right) && !done.contains(right) {
            assert(are_rights(more)) by {
                assert forall|a: int, b: int| 0 <= a < b < more.len() implies lower_char(
                    #[trigger] more[a],
                ) != lower_char(#[trigger] more[b]) by {
                    if b == i {
                        assert(done[a] == lower_char(chars[a]));
                        assert(done.contains(done[a]));
                    } else {
                        assert(chars.take(i)[a] == more[a] && chars.take(i)[b] == more[b]);
                    }
                }
            }
            lemma_rights_exact(chars, i + 1, done.push(right));
        } else if is_right(right) {
            let k = choose|k: int| 0 <= k < done.len() && done[k] == right;
            assert(done[k] == lower_char(chars[k]));
            assert(lower_char(chars[k]) == lower_char(chars[i]));
        }
    } else {
        assert(chars.take(i) =~= chars);
    }
}

/// The rights of a scope are letters for reading, updating, deleting and inserting, none twice,
/// in small letters.
pub proof fn law_rights_are_letters(chars: Seq<char>)
    ensures
        match rights_from(chars, 0, Seq::empty()) {
            Ok(rights) => are_rights(chars) && rights.len() == chars.len() && forall|k: int|
                0 <= k < chars.len() ==> #[trigger] rights[k] == lower_char(chars[k]),
            Err(f) => !are_rights(chars) && f.kind == ErrorKind::InvalidInput,
        },
{
    lemma_rights_exact(chars, 0, Seq::empty());
}

/// A scope is refused where it is not one path and some rights with a colon between, or where its
/// rights are none.
pub proof fn law_scope_needs_a_path_and_rights(raw: Seq<char>)
    ensures
        scope_parsed(raw) matches Ok(scope) ==> {
            let parts = split_parts(trimmed(raw), ':');
            &&& parts.len() == 2
            &&& trimmed(parts[0]).len() > 0
            &&& trimmed(parts[1]).len() > 0
            &&& are_rights(trimmed(parts[1]))
        },
        split_parts(trimmed(raw), ':').len() != 2 ==> scope_parsed(raw) is Err,
{
    crate::text::laws::lemma_split_pieces(trimmed(raw), ':', 0);
    law_rights_are_letters(scope_rights(raw));
}

proof fn lemma_same_elsewhere(
    registry: Json,
    after: Json,
    user: Seq<char>,
    entry: Option<Json>,
    other: Seq<char>,
)
    requires
        after == Json::Object(
            crate::access_control::object_fields(registry).insert(
                "users"@,
                Json::Object(
                    match entry {
                        Some(e) => users_of(registry).insert(user, e),
                        None => users_of(registry).remove(user),
                    },
                ),
            ),
        ),
        other != user,
    ensures
        entry_of(after, other) == entry_of(registry, other),
        entry_of(after, user) == entry,
{
    match registry.get("users"@) {
        Some(users) => {
            assert(users_of(registry) =~= crate::access_control::object_fields(users));
        },
        None => {},
    }
}

proof fn lemma_permissions_of(registry: Json, user: Seq<char>, scope: Seq<char>)
    ensures
        permissions_of(registry, user).contains(Json::Text(scope)) <==> has_permission(
            registry,
            user,
            scope,
        ),
{
    reveal_strlit("username");
    reveal_strlit("permissions");
    assert("username"@.len() == 8 && "permissions"@.len() == 11);
    match registry.get("users"@) {
        Some(users) => {
            assert(users_of(registry) =~= crate::access_control::object_fields(users));
        },
        None => {},
    }
}

/// A permission that is granted is held, and one that is revoked is not; every other permission
/// of every user stays as it was. Both requests are carried out where the payload names a user
/// and a scope, and refused else. The answer names the user and the scope.
pub proof fn law_permissions_follow_requests(
    registry: Json,
    payload: Json,
    granting: bool,
    user: Seq<char>,
    scope: Seq<char>,
)
    ensures
        ({
            let action = if granting {
                "grant_permission"@
            } else {
                "revoke_permission"@
            };
            match (payload_username(payload), payload_scope(payload)) {
                (Ok(name), Ok(wanted)) => user_managed(registry, action, payload) matches Ok(
                    (after, answer),
                ) && {
                    &&& has_permission(after, user, scope) == if user == name && scope == wanted {
                        granting
                    } else {
                        has_permission(registry, user, scope)
                    }
                    &&& answer.get("ok"@) == Some(Json::Bool(true))
                    &&& answer.get("username"@) == Some(Json::Text(name))
                    &&& answer.get("permission_scope"@) == Some(Json::Text(wanted))
                },
                _ => user_managed(registry, action, payload) is Err,
            }
        }),
{
    crate::access_control::lemma_words();
    lemma_answer_words();
    match (payload_username(payload), payload_scope(payload)) {
        (Ok(name), Ok(wanted)) => {
            let action = if granting {
                "grant_permission"@
            } else {
                "revoke_permission"@
            };
            let before = permissions_of(registry, name);
            let now = changed(before, wanted, granting);
            let after = user_managed(registry, action, payload)->Ok_0.0;
            let entry = Json::Object(
                crate::access_control::user_entry(users_of(registry), name).insert(
                    "permissions"@,
                    Json::Array(now),
                ),
            );
            assert(after == crate::access_control::with_permissions(registry, name, now));
            if user != name {
                lemma_same_elsewhere(registry, after, name, Some(entry), user);
            } else {
                lemma_same_elsewhere(
                    registry,
                    after,
                    name,
                    Some(entry),
                    name.push('x'),
                );
                assert(name.push('x').len() != name.len());
                assert(has_permission(after, user, scope) <==> now.contains(Json::Text(scope)));
                lemma_permissions_of(registry, name, scope);
                if granting {
                    lemma_granted(before, wanted, scope);
                } else {
                    lemma_revoked(before, wanted, before.len() as int);
                    lemma_taken_out(before, wanted, scope, before.len() as int);
                }
            }
        },
        _ => {},
    }
}

proof fn lemma_granted(before: Seq<Json>, wanted: Seq<char>, scope: Seq<char>)
    ensures
        granted(before, wanted).contains(Json::Text(scope)) <==> before.contains(Json::Text(scope))
            || scope == wanted,
{
    let after = granted(before, wanted);
    if before.contains(Json::Text(scope)) {
        let i = choose|i: int| 0 <= i < before.len() && before[i] == Json::Text(scope);
        assert(after[i] == Json::Text(scope));
    }
    if scope == wanted {
        if !crate::access_control::holds_scope(before, wanted) {
            assert(after.last() == Json::Text(scope));
        } else {
            let i = choose|i: int|
                0 <= i < before.len() && (#[trigger] before[i]) == Json::Text(wanted);
            assert(after[i] == Json::Text(scope));
        }
    }
    if after.contains(Json::Text(scope)) {
        let i = choose|i: int| 0 <= i < after.len() && after[i] == Json::Text(scope);
        if i < before.len() {
            assert(before[i] == Json::Text(scope));
        }
    }
}

proof fn lemma_taken_out(before: Seq<Json>, wanted: Seq<char>, scope: Seq<char>, n: int)
    requires
        0 <= n <= before.len(),
    ensures
        without_text(before, wanted, n).contains(Json::Text(scope)) <==> before.take(n).contains(
            Json::Text(scope),
        ) && scope != wanted,
        n == before.len() ==> before.take(n) == before,
    decreases n,
{
    let after = without_text(before, wanted, n);
    if n == before.len() {
        assert(before.take(n) =~= before);
    }
    if n > 0 {
        lemma_taken_out(before, wanted, scope, n - 1);
        let fewer = before.take(n - 1);
        let more = before.take(n);
        assert(more =~= fewer.push(before[n - 1]));
        let less = without_text(before, wanted, n - 1);
        if more.contains(Json::Text(scope)) {
            let i = choose|i: int| 0 <= i < more.len() && more[i] == Json::Text(scope);
            if i < n - 1 {
                assert(fewer[i] == Json::Text(scope));
            }
        }
        if fewer.contains(Json::Text(scope)) {
            let i = choose|i: int| 0 <= i < fewer.len() && fewer[i] == Json::Text(scope);
            assert(more[i] == Json::Text(scope));
        }
        assert(more[n - 1] == before[n - 1]);
        if less.contains(Json::Text(scope)) {
            let i = choose|i: int| 0 <= i < less.len() && less[i] == Json::Text(scope);
            assert(after[i] == Json::Text(scope));
        }
        if after.contains(Json::Text(scope)) {
            let i = choose|i: int| 0 <= i < after.len() && after[i] == Json::Text(scope);
            if i < less.len() {
                assert(less[i] == Json::Text(scope));
            }
        }
        if before[n - 1] != Json::Text(wanted) {
            assert(after.last() == before[n - 1]);
        }
    }
}

proof fn lemma_answer_words()
    ensures
        "ok"@ != "action"@,
        "ok"@ != "username"@,
        "ok"@ != "permission_scope"@,
        "action"@ != "username"@,
        "username"@ != "permission_scope"@,
{
    reveal_strlit("ok");
    reveal_strlit("action");
    reveal_strlit("username");
    reveal_strlit("permission_scope");
    assert("ok"@.len() == 2 && "action"@.len() == 6 && "username"@.len() == 8);
    assert("permission_scope"@.len() == 16);
}

/// A user that is added is known with what the payload says, a user that is dropped is not known
/// and has no permission, and every other user stays as it was. The answer names the user.
pub proof fn law_users_follow_requests(
    registry: Json,
    payload: Json,
    adding: bool,
    user: Seq<char>,
    scope: Seq<char>,
)
    ensures
        ({
            let action = if adding {
                "create_user"@
            } else {
                "drop_user"@
            };
            match payload_username(payload) {
                Ok(name) => user_managed(registry, action, payload) matches Ok((after, answer)) && {
                    &&& user != name ==> entry_of(after, user) == entry_of(registry, user)
                    &&& !adding && user == name ==> entry_of(after, user) is None
                        && !has_permission(after, user, scope)
                    &&& adding && user == name ==> (entry_of(after, user) matches Some(entry)
                        && entry.get_text("username"@) == Some(name) && forall|f: Seq<char>|
                        f != "username"@ ==> #[trigger] entry.get(f) == payload.get(f))
                    &&& answer.get("ok"@) == Some(Json::Bool(true))
                    &&& answer.get("username"@) == Some(Json::Text(name))
                },
                Err(_) => user_managed(registry, action, payload) is Err,
            }
        }),
{
    crate::access_control::lemma_words();
    lemma_answer_words();
    match payload_username(payload) {
        Ok(name) => {
            assert(payload is Object);
            let action = if adding {
                "create_user"@
            } else {
                "drop_user"@
            };
            let after = user_managed(registry, action, payload)->Ok_0.0;
            let entry = if adding {
                Some(
                    Json::Object(
                        crate::access_control::object_fields(payload).insert(
                            "username"@,
                            Json::Text(name),
                        ),
                    ),
                )
            } else {
                None
            };
            let other = if user == name {
                name.push('x')
            } else {
                user
            };
            assert(name.push('x').len() != name.len());
            lemma_same_elsewhere(registry, after, name, entry, other);
        },
        Err(_) => {},
    }
}

/// A request is understood however it is spelled: in small or capital letters, with hyphens or
/// underscores. A user is added by any of three words. Any other request changes no user and is
/// noted at the end of the operations.
pub proof fn law_requests_are_understood_however_spelled(
    registry: Json,
    action: Seq<char>,
    payload: Json,
    user: Seq<char>,
)
    ensures
        action_word(ascii_lower(action)) == action_word(action),
        action_word(replaced(action, '-', '_')) == action_word(action),
        user_managed(registry, "add_user"@, payload) == user_managed(
            registry,
            "create_user"@,
            payload,
        ),
        user_managed(registry, "add"@, payload) == user_managed(registry, "create_user"@, payload),
        !is_user_request(action_word(action)) ==> (user_managed(
            registry,
            action,
            payload,
        ) matches Ok((after, answer)) && entry_of(after, user) == entry_of(registry, user)
            && (after.get("operations"@) matches Some(Json::Array(done)) && done.len() > 0
            && done.last().get("action"@) == Some(Json::Text(action)) && done.last().get(
            "payload"@,
        ) == Some(payload) && (registry.get("operations"@) matches Some(Json::Array(before))
            ==> done.drop_last() == before))),
        is_user_request(action_word(action)) ==> user_managed(registry, action, payload)
            == user_managed(registry, action_word(action), payload),
{
    crate::access_control::lemma_words();
    lemma_answer_words();
    reveal_strlit("add_user");
    reveal_strlit("add");
    reveal_strlit("create_user");
    assert(action_word("add_user"@) =~= "add_user"@);
    assert(action_word("add"@) =~= "add"@);
    assert(action_word(ascii_lower(action)) =~= action_word(action));
    assert(action_word(replaced(action, '-', '_')) =~= action_word(action));
    assert(action_word(action_word(action)) =~= action_word(action));
    reveal_strlit("users");
    reveal_strlit("operations");
    reveal_strlit("payload");
    reveal_strlit("action");
    reveal_strlit("username");
    assert("users"@.len() == 5 && "operations"@.len() == 10 && "payload"@.len() == 7);
    match registry.get("operations"@) {
        Some(Json::Array(before)) => {
            let noted = crate::access_control::noted(
                action,
                crate::access_control::noted_user(payload),
                payload,
            );
            assert(before.push(noted).drop_last() =~= before);
        },
        _ => {},
    }
}

/// Whether a word is that of a request about a user.
pub open spec fn is_user_request(word: Seq<char>) -> bool {
    word == "add_user"@ || word == "add"@ || word == "create_user"@ || word == "drop_user"@ || word
        == "grant_permission"@ || word == "revoke_permission"@
}

/// Where there is no registry yet nobody is known and nobody has a permission; a file that is no
/// JSON is no registry.
pub proof fn law_missing_registry_knows_nobody(
    file: Option<Seq<u8>>,
    user: Seq<char>,
    scope: Seq<char>,
)
    ensures
        registry_read(None) matches Ok(registry) && entry_of(registry, user) is None
            && !has_permission(registry, user, scope),
        file matches Some(bytes) ==> match registry_read(file) {
            Ok(registry) => parsed_json(bytes) == Ok::<_, Seq<char>>(registry),
            Err(f) => f.kind == ErrorKind::InvalidData && parsed_json(bytes) is Err,
        },
{
    reveal_strlit("users");
    reveal_strlit("operations");
    assert("users"@.len() == 5 && "operations"@.len() == 10);
}

} // verus!
