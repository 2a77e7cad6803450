//! Users and their permissions.
pub mod laws;

use crate::catalog::diagnostics::{split_structural_path, structural_parts};
use crate::error::{bad_data, bad_input, text_outcome, Error, Failure};
use crate::fields::TextMap;
use crate::text::{
    ascii_lower, concat2, concat3, has_char, join, joined, lower_char, owned, replace_char,
    replaced, same, split, split_parts, texts, to_chars, to_lower, trim, trimmed,
};
use crate::value::{
    drop_text, group_value, is_text, json_fields, jsons, parse_json, parsed_json, without_text, Json,
    JsonValue,
};
use vstd::prelude::*;

verus! {

/// The failure of a scope that is not written as it should be.
pub open spec fn bad_scope() -> Failure {
    bad_input("permission scope must use <path>:<rights>"@)
}

/// Whether a character is a right: to read, to update, to delete or to insert.
pub open spec fn is_right(c: char) -> bool {
    c == 'r' || c == 'u' || c == 'd' || c == 'i'
}

/// The rights that the characters from position `i` on stand for, behind `done`.
pub open spec fn rights_from(chars: Seq<char>, i: int, done: Seq<char>) -> Result<
    Seq<char>,
    Failure,
>
    decreases chars.len() - i,
{
    if i < 0 || i >= chars.len() {
        Ok(done)
    } else {
        let right = lower_char(chars[i]);
        if !is_right(right) {
            Err(bad_input("permission rights must contain only r, u, d, or i"@))
        } else if done.contains(right) {
            Err(bad_input("permission right '"@ + seq![right] + "' cannot be repeated"@))
        } else {
            rights_from(chars, i + 1, done.push(right))
        }
    }
}

/// The path part of a scope.
pub open spec fn scope_path(raw: Seq<char>) -> Seq<char> {
    trimmed(split_parts(trimmed(raw), ':')[0])
}

/// The rights part of a scope.
pub open spec fn scope_rights(raw: Seq<char>) -> Seq<char> {
    let parts = split_parts(trimmed(raw), ':');
    if parts.len() > 1 {
        trimmed(parts[1])
    } else {
        Seq::empty()
    }
}

/// A scope as it is kept, or why it is refused.
pub open spec fn scope_parsed(raw: Seq<char>) -> Result<Seq<char>, Failure> {
    if split_parts(trimmed(raw), ':').len() > 2 || scope_path(raw).len() == 0 || scope_rights(
        raw,
    ).len() == 0 {
        Err(bad_scope())
    } else {
        match structural_parts(scope_path(raw), "permission scope path"@) {
            Err(f) => Err(f),
            Ok(segments) => if segments.len() > 3 {
                Err(
                    bad_input("permission scope path must identify a wardrobe, bay, or drawer"@),
                )
            } else {
                match rights_from(scope_rights(raw), 0, Seq::empty()) {
                    Err(f) => Err(f),
                    Ok(rights) => Ok(joined(segments, "/"@) + ":"@ + rights),
                }
            },
        }
    }
}

fn parse_rights(raw: &str) -> (r: Result<String, Error>)
    ensures
        text_outcome(r) == rights_from(raw@, 0, Seq::empty()),
{
    let lower = to_lower(raw);
    let chars = to_chars(lower.as_str());
    let ghost wanted = rights_from(raw@, 0, Seq::empty());
    let mut rights = String::new();
    assert(rights@ =~= Seq::empty());
    let mut i: usize = 0;
    while i < chars.len()
        invariant
            i <= chars.len(),
            chars@ == ascii_lower(raw@),
            wanted == rights_from(raw@, 0, Seq::empty()),
            wanted == rights_from(raw@, i as int, rights@),
        decreases chars.len() - i,
    {
        let right = chars[i];
        if !(right == 'r' || right == 'u' || right == 'd' || right == 'i') {
            return Err(
                Error::invalid_input(owned("permission rights must contain only r, u, d, or i")),
            );
        }
        if has_char(rights.as_str(), right) {
            let mut one = String::new();
            one.push(right);
            assert(one@ =~= seq![right]);
            return Err(
                Error::invalid_input(
                    concat3("permission right '", one.as_str(), "' cannot be repeated"),
                ),
            );
        }
        rights.push(right);
        i = i + 1;
    }
    Ok(rights)
}

pub fn parse_permission_scope(raw: &str) -> (r: Result<String, Error>)
    ensures
        text_outcome(r) == scope_parsed(raw@),
{
    let bare = trim(raw);
    let parts = split(bare.as_str(), ':');
    let ghost pieces = split_parts(trimmed(raw@), ':');
    proof {
        crate::text::laws::lemma_split_pieces(trimmed(raw@), ':', 0);
    }
    assert(texts(parts@) == pieces && parts@.len() == pieces.len());
    assert(pieces[0] == parts@[0]@);
    let path = trim(parts[0].as_str());
    let rights = if parts.len() > 1 {
        assert(pieces[1] == parts@[1]@);
        trim(parts[1].as_str())
    } else {
        let none = String::new();
        assert(none@ =~= Seq::empty());
        none
    };
    if parts.len() > 2 || path.as_str().is_empty() || rights.as_str().is_empty() {
        return Err(Error::invalid_input(owned("permission scope must use <path>:<rights>")));
    }
    let segments = match split_structural_path(path.as_str(), "permission scope path") {
        Ok(segments) => segments,
        Err(e) => {
            return Err(e);
        },
    };
    assert(texts(segments@).len() == segments@.len());
    if segments.len() > 3 {
        return Err(
            Error::invalid_input(
                owned("permission scope path must identify a wardrobe, bay, or drawer"),
            ),
        );
    }
    match parse_rights(rights.as_str()) {
        Ok(rights) => {
            let place = join(&segments, "/");
            Ok(concat3(place.as_str(), ":", rights.as_str()))
        },
        Err(e) => Err(e),
    }
}

proof fn lemma_rights(chars: Seq<char>, i: int, done: Seq<char>)
    requires
        0 <= i <= chars.len(),
        done.no_duplicates(),
    ensures
        rights_from(chars, i, done) matches Ok(rights) ==> {
            &&& rights == done + ascii_lower(chars.skip(i))
            &&& rights.no_duplicates()
            &&& forall|k: int| done.len() <= k < rights.len() ==> is_right(#[trigger] rights[k])
        },
    decreases chars.len() - i,
{
    if i < chars.len() {
        let right = lower_char(chars[i]);
        if is_right(right) && !done.contains(right) {
            let more = done.push(right);
            assert(more.no_duplicates()) by {
                assert forall|a: int, b: int| 0 <= a < b < more.len() implies more[a] != more[b] by {
                    if b == done.len() {
                        assert(done.contains(done[a]));
                    }
                }
            }
            lemma_rights(chars, i + 1, more);
            if rights_from(chars, i, done) is Ok {
                let rights = rights_from(chars, i, done)->Ok_0;
                assert(rights =~= done + ascii_lower(chars.skip(i)));
                assert(rights[done.len() as int] == right);
            }
        }
    } else {
        assert(done + ascii_lower(chars.skip(i)) =~= done);
    }
}

proof fn lemma_rights_again(rights: Seq<char>, i: int)
    requires
        0 <= i <= rights.len(),
        rights.no_duplicates(),
        forall|k: int| 0 <= k < rights.len() ==> is_right(#[trigger] rights[k]),
    ensures
        rights_from(rights, i, rights.take(i)) == Ok::<Seq<char>, Failure>(rights),
    decreases rights.len() - i,
{
    if i < rights.len() {
        assert(is_right(rights[i]));
        assert(!rights.take(i).contains(rights[i]));
        assert(rights.take(i).push(rights[i]) =~= rights.take(i + 1));
        lemma_rights_again(rights, i + 1);
    } else {
        assert(rights.take(i) =~= rights);
    }
}

/// A scope is kept as its path, of at most three parts, and its rights, each once, in lower case
/// and in the order in which they are listed. A scope that is kept is parsed to itself.
pub proof fn law_kept_scope_is_parsed_to_itself(raw: Seq<char>)
    ensures
        scope_parsed(raw) matches Ok(scope) ==> {
            let rights = ascii_lower(scope_rights(raw));
            &&& scope == scope_path(raw) + ":"@ + rights
            &&& 1 <= split_parts(scope_path(raw), '/').len() <= 3
            &&& rights.len() > 0
            &&& rights.no_duplicates()
            &&& forall|k: int| 0 <= k < rights.len() ==> is_right(#[trigger] rights[k])
            &&& scope_parsed(scope) == Ok::<Seq<char>, Failure>(scope)
        },
{
    if scope_parsed(raw) is Ok {
        reveal_strlit(":");
        reveal_strlit("/");
        let pieces = split_parts(trimmed(raw), ':');
        let path = scope_path(raw);
        let given = scope_rights(raw);
        let none = Seq::<char>::empty();
        crate::text::laws::lemma_split_pieces(trimmed(raw), ':', 0);
        crate::text::laws::law_trim_twice(pieces[0]);
        crate::text::laws::lemma_trimmed_ends(pieces[0]);
        lemma_trimmed_holds(pieces[0], ':');
        let segments = split_parts(path, '/');
        crate::text::laws::lemma_split_pieces(path, '/', 0);
        crate::text::laws::law_split_then_join(path, '/');
        assert(seq!['/'] =~= "/"@);
        lemma_rights(given, 0, none);
        let rights = rights_from(given, 0, none)->Ok_0;
        assert(given.skip(0) =~= given);
        assert(none + ascii_lower(given) =~= ascii_lower(given));
        assert(rights == ascii_lower(given));
        let scope = path + ":"@ + rights;
        assert(scope_parsed(raw)->Ok_0 == scope);
        assert(is_right(rights[0]) && is_right(rights.last()));
        crate::text::laws::lemma_solid_stays(rights);
        assert(scope[0] == path[0] && scope.last() == rights.last());
        crate::text::laws::lemma_solid_stays(scope);
        assert(!rights.contains(':')) by {
            if rights.contains(':') {
                let k = choose|k: int| 0 <= k < rights.len() && rights[k] == ':';
                assert(is_right(rights[k]));
            }
        }
        crate::text::laws::lemma_split_plain(path, ':');
        crate::text::laws::lemma_split_append(path, ':', rights);
        assert(seq![':'] =~= ":"@);
        assert(split_parts(scope, ':') =~= seq![path, rights]);
        assert(rights.take(0) =~= none);
        lemma_rights_again(rights, 0);
    }
}

/// Trimming a text adds no characters.
proof fn lemma_trimmed_holds(s: Seq<char>, c: char)
    requires
        !s.contains(c),
    ensures
        !trimmed(s).contains(c),
{
    crate::text::laws::lemma_first_solid(s, 0);
    let start = crate::text::first_solid(s, 0);
    crate::text::laws::lemma_solid_end(s, start, s.len() as int);
    if trimmed(s).contains(c) {
        let k = choose|k: int| 0 <= k < trimmed(s).len() && trimmed(s)[k] == c;
        assert(s[start + k] == c);
        assert(s.contains(s[start + k]));
    }
}

/// What a payload holds under `username`, else under `user`.
pub open spec fn user_field(payload: Json) -> Option<Seq<char>> {
    let value = if payload.get("username"@) is Some {
        payload.get("username"@)
    } else {
        payload.get("user"@)
    };
    match value {
        Some(v) => v.text(),
        None => None,
    }
}

fn payload_user(payload: &JsonValue) -> (r: Option<&str>)
    ensures
        crate::text::opt_str(r) == user_field(payload@),
{
    let value = match payload.get("username") {
        Some(v) => Some(v),
        None => payload.get("user"),
    };
    match value {
        Some(v) => v.as_str(),
        None => None,
    }
}

/// The user that a payload is about, or why there is none.
pub open spec fn payload_username(payload: Json) -> Result<Seq<char>, Failure> {
    let name = match user_field(payload) {
        Some(s) => trimmed(s),
        None => Seq::empty(),
    };
    if name.len() == 0 {
        Err(bad_input("user admin payload requires a non-empty username"@))
    } else {
        Ok(name)
    }
}

pub fn user_payload_username(payload: &JsonValue) -> (r: Result<String, Error>)
    ensures
        text_outcome(r) == payload_username(payload@),
{
    let name = match payload_user(payload) {
        Some(s) => trim(s),
        None => {
            let none = String::new();
            assert(none@ =~= Seq::empty());
            none
        },
    };
    if name.as_str().is_empty() {
        return Err(
            Error::invalid_input(owned("user admin payload requires a non-empty username")),
        );
    }
    Ok(name)
}

/// The text under a key of an object, empty where there is none.
pub open spec fn text_or_empty(value: Json, key: Seq<char>) -> Seq<char> {
    match value.get_text(key) {
        Some(s) => s,
        None => Seq::empty(),
    }
}

/// The scope that a payload names, or why there is none.
pub open spec fn payload_scope(payload: Json) -> Result<Seq<char>, Failure> {
    match payload.get_text("permission_scope"@) {
        Some(scope) => scope_parsed(scope),
        None => match payload.get("scope"@) {
            Some(Json::Object(fields)) => scope_parsed(
                text_or_empty(Json::Object(fields), "path"@) + ":"@ + text_or_empty(
                    Json::Object(fields),
                    "rights"@,
                ),
            ),
            _ => Err(bad_input("permission payload requires a permission_scope"@)),
        },
    }
}

pub fn permission_payload_scope(payload: &JsonValue) -> (r: Result<String, Error>)
    ensures
        text_outcome(r) == payload_scope(payload@),
{
    broadcast use group_value;

    match payload.get_str("permission_scope") {
        Some(scope) => {
            return parse_permission_scope(scope);
        },
        None => {},
    }
    match payload.get("scope") {
        Some(scope) => {
            if scope.is_object() {
                let path = match scope.get_str("path") {
                    Some(s) => owned(s),
                    None => String::new(),
                };
                let rights = match scope.get_str("rights") {
                    Some(s) => owned(s),
                    None => String::new(),
                };
                assert(path@ =~= text_or_empty(scope@, "path"@));
                assert(rights@ =~= text_or_empty(scope@, "rights"@));
                let raw = concat3(path.as_str(), ":", rights.as_str());
                return parse_permission_scope(raw.as_str());
            }
        },
        None => {},
    }
    Err(Error::invalid_input(owned("permission payload requires a permission_scope")))
}

/// The fields of an object; of another value, none.
pub open spec fn object_fields(value: Json) -> Map<Seq<char>, Json> {
    match value {
        Json::Object(fields) => fields,
        _ => Map::empty(),
    }
}

/// The items of an array; of another value, none.
pub open spec fn array_items(value: Json) -> Seq<Json> {
    match value {
        Json::Array(items) => items,
        _ => Seq::empty(),
    }
}

fn take_fields(value: JsonValue) -> (r: TextMap<JsonValue>)
    ensures
        json_fields(r) == object_fields(value@),
{
    broadcast use group_value;

    match value {
        JsonValue::Object(fields) => fields,
        _ => TextMap::new(),
    }
}

fn take_items(value: JsonValue) -> (r: Vec<JsonValue>)
    ensures
        jsons(r@) == array_items(value@),
{
    broadcast use group_value;

    match value {
        JsonValue::Array(items) => items,
        _ => {
            let none: Vec<JsonValue> = Vec::new();
            assert(jsons(none@) =~= Seq::empty());
            none
        },
    }
}

/// The fields of the object under a key.
pub open spec fn inner_fields(fields: Map<Seq<char>, Json>, key: Seq<char>) -> Map<
    Seq<char>,
    Json,
> {
    if fields.dom().contains(key) {
        object_fields(fields[key])
    } else {
        Map::empty()
    }
}

/// The items of the array under a key.
pub open spec fn inner_items(fields: Map<Seq<char>, Json>, key: Seq<char>) -> Seq<Json> {
    if fields.dom().contains(key) {
        array_items(fields[key])
    } else {
        Seq::empty()
    }
}

fn take_inner_fields(fields: &mut TextMap<JsonValue>, key: &str) -> (r: TextMap<JsonValue>)
    ensures
        json_fields(r) == inner_fields(json_fields(*old(fields)), key@),
        json_fields(*final(fields)) == json_fields(*old(fields)).remove(key@),
{
    broadcast use group_value;

    match fields.remove(key) {
        Some(value) => take_fields(value),
        None => TextMap::new(),
    }
}

fn take_inner_items(fields: &mut TextMap<JsonValue>, key: &str) -> (r: Vec<JsonValue>)
    ensures
        jsons(r@) == inner_items(json_fields(*old(fields)), key@),
        json_fields(*final(fields)) == json_fields(*old(fields)).remove(key@),
{
    broadcast use group_value;

    match fields.remove(key) {
        Some(value) => take_items(value),
        None => {
            let none: Vec<JsonValue> = Vec::new();
            assert(jsons(none@) =~= Seq::empty());
            none
        },
    }
}

fn put_field(fields: &mut TextMap<JsonValue>, key: &str, value: JsonValue)
    ensures
        json_fields(*final(fields)) == json_fields(*old(fields)).insert(key@, value@),
{
    broadcast use group_value;

    fields.insert(owned(key), value);
}

/// The users of a registry.
pub open spec fn users_of(registry: Json) -> Map<Seq<char>, Json> {
    inner_fields(object_fields(registry), "users"@)
}

/// The registry with other users.
pub open spec fn with_users(registry: Json, users: Map<Seq<char>, Json>) -> Json {
    Json::Object(object_fields(registry).insert("users"@, Json::Object(users)))
}

/// The operations that a registry holds.
pub open spec fn operations_of(registry: Json) -> Seq<Json> {
    inner_items(object_fields(registry), "operations"@)
}

/// What is known of a user. Of a new one, the name is.
pub open spec fn user_entry(users: Map<Seq<char>, Json>, username: Seq<char>) -> Map<
    Seq<char>,
    Json,
> {
    if users.dom().contains(username) {
        object_fields(users[username])
    } else {
        Map::empty().insert("username"@, Json::Text(username))
    }
}

/// The permissions of a user.
pub open spec fn permissions_of(registry: Json, username: Seq<char>) -> Seq<Json> {
    inner_items(user_entry(users_of(registry), username), "permissions"@)
}

/// The registry once a user has other permissions.
pub open spec fn with_permissions(
    registry: Json,
    username: Seq<char>,
    permissions: Seq<Json>,
) -> Json {
    let users = users_of(registry);
    with_users(
        registry,
        users.insert(
            username,
            Json::Object(
                user_entry(users, username).insert("permissions"@, Json::Array(permissions)),
            ),
        ),
    )
}

/// Whether the permissions hold the scope.
pub open spec fn holds_scope(permissions: Seq<Json>, scope: Seq<char>) -> bool {
    exists|i: int| 0 <= i < permissions.len() && (#[trigger] permissions[i]) == Json::Text(scope)
}

/// The permissions with the scope, which they hold only once.
pub open spec fn granted(permissions: Seq<Json>, scope: Seq<char>) -> Seq<Json> {
    if holds_scope(permissions, scope) {
        permissions
    } else {
        permissions.push(Json::Text(scope))
    }
}

/// The permissions once the scope was granted or revoked.
pub open spec fn changed(permissions: Seq<Json>, scope: Seq<char>, granting: bool) -> Seq<Json> {
    if granting {
        granted(permissions, scope)
    } else {
        without_text(permissions, scope, permissions.len() as int)
    }
}

fn grant(permissions: &mut Vec<JsonValue>, scope: &str)
    ensures
        jsons(final(permissions)@) == granted(jsons(old(permissions)@), scope@),
{
    let ghost before = jsons(permissions@);
    let mut i: usize = 0;
    while i < permissions.len()
        invariant
            i <= permissions.len(),
            before == jsons(permissions@),
            before == jsons(old(permissions)@),
            forall|j: int| 0 <= j < i ==> (#[trigger] before[j]) != Json::Text(scope@),
        decreases permissions.len() - i,
    {
        assert(before[i as int] == permissions@[i as int]@);
        if is_text(&permissions[i], scope) {
            return;
        }
        i = i + 1;
    }
    let added = JsonValue::text(scope);
    let ghost a = added@;
    permissions.push(added);
    assert(jsons(permissions@) =~= before.push(a));
}

/// What is asked for.
pub open spec fn action_word(action: Seq<char>) -> Seq<char> {
    ascii_lower(replaced(action, '-', '_'))
}

/// The answer to a request about a user.
pub open spec fn reply(action: Seq<char>, username: Seq<char>) -> Map<Seq<char>, Json> {
    Map::empty().insert("ok"@, Json::Bool(true)).insert("action"@, Json::Text(action)).insert(
        "username"@,
        Json::Text(username),
    )
}

/// An operation that is only noted down.
pub open spec fn noted(action: Seq<char>, username: Seq<char>, payload: Json) -> Json {
    Json::Object(
        Map::empty().insert("action"@, Json::Text(action)).insert(
            "username"@,
            Json::Text(username),
        ).insert("payload"@, payload),
    )
}

/// The user of a request that is only noted down.
pub open spec fn noted_user(payload: Json) -> Seq<char> {
    match user_field(payload) {
        Some(s) => s,
        None => "unknown"@,
    }
}

/// The registry after a request and the answer to it, or why it is refused.
pub open spec fn user_managed(registry: Json, action: Seq<char>, payload: Json) -> Result<
    (Json, Json),
    Failure,
> {
    let word = action_word(action);
    if word == "add_user"@ || word == "add"@ || word == "create_user"@ {
        match payload_username(payload) {
            Err(f) => Err(f),
            Ok(username) => Ok(
                (
                    with_users(
                        registry,
                        users_of(registry).insert(
                            username,
                            match payload {
                                Json::Object(fields) => Json::Object(
                                    fields.insert("username"@, Json::Text(username)),
                                ),
                                other => other,
                            },
                        ),
                    ),
                    Json::Object(reply("add_user"@, username)),
                ),
            ),
        }
    } else if word == "drop_user"@ {
        match payload_username(payload) {
            Err(f) => Err(f),
            Ok(username) => Ok(
                (
                    with_users(registry, users_of(registry).remove(username)),
                    Json::Object(reply("drop_user"@, username)),
                ),
            ),
        }
    } else if word == "grant_permission"@ || word == "revoke_permission"@ {
        match payload_username(payload) {
            Err(f) => Err(f),
            Ok(username) => match payload_scope(payload) {
                Err(f) => Err(f),
                Ok(scope) => {
                    let before = permissions_of(registry, username);
                    Ok(
                        (
                            with_permissions(
                                registry,
                                username,
                                changed(before, scope, word == "grant_permission"@),
                            ),
                            Json::Object(
                                reply(word, username).insert(
                                    "permission_scope"@,
                                    Json::Text(scope),
                                ),
                            ),
                        ),
                    )
                },
            },
        }
    } else {
        let username = noted_user(payload);
        Ok(
            (
                Json::Object(
                    object_fields(registry).insert(
                        "operations"@,
                        Json::Array(
                            operations_of(registry).push(noted(action, username, payload)),
                        ),
                    ),
                ),
                Json::Object(reply(action, username)),
            ),
        )
    }
}

fn reply_fields(action: &str, username: &str) -> (r: TextMap<JsonValue>)
    ensures
        json_fields(r) == reply(action@, username@),
{
    broadcast use group_value;

    let mut fields: TextMap<JsonValue> = TextMap::new();
    assert(json_fields(fields) == Map::<Seq<char>, Json>::empty());
    put_field(&mut fields, "ok", JsonValue::Bool(true));
    put_field(&mut fields, "action", JsonValue::text(action));
    put_field(&mut fields, "username", JsonValue::text(username));
    fields
}

fn add_user(registry: JsonValue, payload: JsonValue, username: &str) -> (r: JsonValue)
    ensures
        r@ == with_users(
            registry@,
            users_of(registry@).insert(
                username@,
                match payload@ {
                    Json::Object(fields) => Json::Object(
                        fields.insert("username"@, Json::Text(username@)),
                    ),
                    other => other,
                },
            ),
        ),
{
    broadcast use group_value;

    let mut fields = take_fields(registry);
    let ghost all = json_fields(fields);
    let mut users = take_inner_fields(&mut fields, "users");
    let entry = match payload {
        JsonValue::Object(given) => {
            let mut given = given;
            put_field(&mut given, "username", JsonValue::text(username));
            JsonValue::object(given)
        },
        other => other,
    };
    put_field(&mut users, username, entry);
    let listed = JsonValue::object(users);
    let ghost u = listed@;
    put_field(&mut fields, "users", listed);
    assert(json_fields(fields) =~= all.insert("users"@, u));
    JsonValue::object(fields)
}

fn drop_user(registry: JsonValue, username: &str) -> (r: JsonValue)
    ensures
        r@ == with_users(registry@, users_of(registry@).remove(username@)),
{
    broadcast use group_value;

    let mut fields = take_fields(registry);
    let ghost all = json_fields(fields);
    let mut users = take_inner_fields(&mut fields, "users");
    let _ = users.remove(username);
    let listed = JsonValue::object(users);
    let ghost u = listed@;
    put_field(&mut fields, "users", listed);
    assert(json_fields(fields) =~= all.insert("users"@, u));
    JsonValue::object(fields)
}

fn change_permissions(registry: JsonValue, username: &str, scope: &str, granting: bool) -> (r:
    JsonValue)
    ensures
        r@ == with_permissions(
            registry@,
            username@,
            changed(permissions_of(registry@, username@), scope@, granting),
        ),
{
    broadcast use group_value;

    let mut fields = take_fields(registry);
    let ghost all = json_fields(fields);
    let mut users = take_inner_fields(&mut fields, "users");
    let ghost old_users = json_fields(users);
    let mut user = match users.remove(username) {
        Some(value) => take_fields(value),
        None => {
            let mut user: TextMap<JsonValue> = TextMap::new();
            assert(json_fields(user) == Map::<Seq<char>, Json>::empty());
            put_field(&mut user, "username", JsonValue::text(username));
            user
        },
    };
    let ghost entry = json_fields(user);
    assert(entry == user_entry(old_users, username@));
    let mut permissions = take_inner_items(&mut user, "permissions");
    let ghost count = permissions@.len();
    assert(jsons(permissions@).len() == count);
    if granting {
        grant(&mut permissions, scope);
    } else {
        permissions = drop_text(permissions, scope);
    }
    let list = JsonValue::array(permissions);
    let ghost l = list@;
    put_field(&mut user, "permissions", list);
    assert(json_fields(user) =~= entry.insert("permissions"@, l));
    let changed = JsonValue::object(user);
    let ghost c = changed@;
    put_field(&mut users, username, changed);
    assert(json_fields(users) =~= old_users.insert(username@, c));
    let listed = JsonValue::object(users);
    let ghost u = listed@;
    put_field(&mut fields, "users", listed);
    assert(json_fields(fields) =~= all.insert("users"@, u));
    JsonValue::object(fields)
}

fn note_operation(registry: JsonValue, action: &str, username: &str, payload: JsonValue) -> (r:
    JsonValue)
    ensures
        r@ == Json::Object(
            object_fields(registry@).insert(
                "operations"@,
                Json::Array(operations_of(registry@).push(noted(action@, username@, payload@))),
            ),
        ),
{
    broadcast use group_value;

    let mut fields = take_fields(registry);
    let ghost all = json_fields(fields);
    let mut operations = take_inner_items(&mut fields, "operations");
    let ghost before = jsons(operations@);
    let mut entry: TextMap<JsonValue> = TextMap::new();
    assert(json_fields(entry) == Map::<Seq<char>, Json>::empty());
    put_field(&mut entry, "action", JsonValue::text(action));
    put_field(&mut entry, "username", JsonValue::text(username));
    put_field(&mut entry, "payload", payload);
    let operation = JsonValue::object(entry);
    let ghost o = operation@;
    operations.push(operation);
    assert(jsons(operations@) =~= before.push(o));
    let list = JsonValue::array(operations);
    let ghost l = list@;
    put_field(&mut fields, "operations", list);
    assert(json_fields(fields) =~= all.insert("operations"@, l));
    JsonValue::object(fields)
}

/// The registry after a request about a user, and the answer to it.
pub fn manage_user(registry: JsonValue, action: &str, payload: JsonValue) -> (r: Result<
    (JsonValue, JsonValue),
    Error,
>)
    ensures
        match (user_managed(registry@, action@, payload@), r) {
            (Ok(a), Ok(b)) => b.0@ == a.0 && b.1@ == a.1,
            (Err(f), Err(e)) => e@ == f,
            _ => false,
        },
{
    let plain = replace_char(action, '-', '_');
    let lower = to_lower(plain.as_str());
    let word = lower.as_str();
    if same(word, "add_user") || same(word, "add") || same(word, "create_user") {
        let username = match user_payload_username(&payload) {
            Ok(username) => username,
            Err(e) => {
                return Err(e);
            },
        };
        let answer = reply_fields("add_user", username.as_str());
        Ok((add_user(registry, payload, username.as_str()), JsonValue::object(answer)))
    } else if same(word, "drop_user") {
        let username = match user_payload_username(&payload) {
            Ok(username) => username,
            Err(e) => {
                return Err(e);
            },
        };
        let answer = reply_fields("drop_user", username.as_str());
        Ok((drop_user(registry, username.as_str()), JsonValue::object(answer)))
    } else if same(word, "grant_permission") || same(word, "revoke_permission") {
        let username = match user_payload_username(&payload) {
            Ok(username) => username,
            Err(e) => {
                return Err(e);
            },
        };
        let scope = match permission_payload_scope(&payload) {
            Ok(scope) => scope,
            Err(e) => {
                return Err(e);
            },
        };
        let granting = same(word, "grant_permission");
        let mut answer = reply_fields(word, username.as_str());
        put_field(&mut answer, "permission_scope", JsonValue::text(scope.as_str()));
        Ok(
            (
                change_permissions(registry, username.as_str(), scope.as_str(), granting),
                JsonValue::object(answer),
            ),
        )
    } else {
        let username = match payload_user(&payload) {
            Some(s) => owned(s),
            None => owned("unknown"),
        };
        let answer = reply_fields(action, username.as_str());
        Ok(
            (
                note_operation(registry, action, username.as_str(), payload),
                JsonValue::object(answer),
            ),
        )
    }
}

/// The registry without users and operations.
pub open spec fn empty_registry() -> Json {
    Json::Object(
        Map::empty().insert("users"@, Json::Object(Map::empty())).insert(
            "operations"@,
            Json::Array(Seq::empty()),
        ),
    )
}

/// The registry that a file holds, or why it holds none.
pub open spec fn registry_read(file: Option<Seq<u8>>) -> Result<Json, Failure> {
    match file {
        None => Ok(empty_registry()),
        Some(bytes) => match parsed_json(bytes) {
            Ok(registry) => Ok(registry),
            Err(message) => Err(bad_data("Invalid access-control registry JSON: "@ + message)),
        },
    }
}

/// The bytes of a file that there may be.
pub open spec fn opt_bytes(file: Option<&[u8]>) -> Option<Seq<u8>> {
    match file {
        Some(bytes) => Some(bytes@),
        None => None,
    }
}

/// The registry that a file holds. Where there is no file, there are no users.
pub fn read_access_control_registry(file: Option<&[u8]>) -> (r: Result<JsonValue, Error>)
    ensures
        match (registry_read(opt_bytes(file)), r) {
            (Ok(m), Ok(registry)) => registry@ == m,
            (Err(f), Err(e)) => e@ == f,
            _ => false,
        },
{
    broadcast use group_value;

    match file {
        None => {
            let users: TextMap<JsonValue> = TextMap::new();
            assert(json_fields(users) == Map::<Seq<char>, Json>::empty());
            let operations: Vec<JsonValue> = Vec::new();
            assert(jsons(operations@) =~= Seq::empty());
            let mut fields: TextMap<JsonValue> = TextMap::new();
            assert(json_fields(fields) == Map::<Seq<char>, Json>::empty());
            put_field(&mut fields, "users", JsonValue::object(users));
            put_field(&mut fields, "operations", JsonValue::array(operations));
            Ok(JsonValue::object(fields))
        },
        Some(bytes) => match parse_json(bytes) {
            Ok(registry) => Ok(registry),
            Err(message) => Err(
                Error::invalid_data(
                    concat2("Invalid access-control registry JSON: ", message.as_str()),
                ),
            ),
        },
    }
}

pub proof fn lemma_revoked(permissions: Seq<Json>, scope: Seq<char>, n: int)
    requires
        0 <= n <= permissions.len(),
    ensures
        !holds_scope(without_text(permissions, scope, n), scope),
        forall|other: Seq<char>|
            other != scope ==> (#[trigger] holds_scope(without_text(permissions, scope, n), other)
                <==> exists|i: int|
                0 <= i < n && (#[trigger] permissions[i]) == Json::Text(other)),
    decreases n,
{
    if n > 0 {
        lemma_revoked(permissions, scope, n - 1);
        let before = without_text(permissions, scope, n - 1);
        if permissions[n - 1] != Json::Text(scope) {
            let after = before.push(permissions[n - 1]);
            assert(without_text(permissions, scope, n) == after);
            assert forall|other: Seq<char>| other != scope implies (#[trigger] holds_scope(
                after,
                other,
            ) <==> exists|i: int| 0 <= i < n && (#[trigger] permissions[i]) == Json::Text(
                other,
            )) by {
                if holds_scope(after, other) {
                    let k = choose|k: int| 0 <= k < after.len() && after[k] == Json::Text(other);
                    if k < before.len() {
                        assert(before[k] == after[k]);
                        assert(holds_scope(before, other));
                    }
                }
                if exists|i: int| 0 <= i < n && (#[trigger] permissions[i]) == Json::Text(other) {
                    let i = choose|i: int|
                        0 <= i < n && (#[trigger] permissions[i]) == Json::Text(other);
                    if i < n - 1 {
                        assert(holds_scope(before, other));
                        let k = choose|k: int|
                            0 <= k < before.len() && before[k] == Json::Text(other);
                        assert(after[k] == Json::Text(other));
                    } else {
                        assert(after[before.len() as int] == Json::Text(other));
                    }
                }
            }
            if holds_scope(after, scope) {
                let k = choose|k: int| 0 <= k < after.len() && after[k] == Json::Text(scope);
                if k < before.len() {
                    assert(before[k] == Json::Text(scope));
                    assert(holds_scope(before, scope));
                }
            }
        } else {
            assert forall|other: Seq<char>| other != scope implies (#[trigger] holds_scope(
                before,
                other,
            ) <==> exists|i: int| 0 <= i < n && (#[trigger] permissions[i]) == Json::Text(
                other,
            )) by {
                if exists|i: int| 0 <= i < n && (#[trigger] permissions[i]) == Json::Text(other) {
                    let i = choose|i: int|
                        0 <= i < n && (#[trigger] permissions[i]) == Json::Text(other);
                    assert(i < n - 1);
                }
            }
        }
    }
}

/// A permission that was granted is held, and to grant it again changes nothing.
pub proof fn law_granted_is_held(registry: Json, payload: Json)
    ensures
        (payload_username(payload), payload_scope(payload)) matches (Ok(username), Ok(scope))
            ==> (user_managed(registry, "grant_permission"@, payload) matches Ok(done)
            && holds_scope(permissions_of(done.0, username), scope) && user_managed(
            done.0,
            "grant_permission"@,
            payload,
        ) == Ok::<(Json, Json), Failure>(done)),
{
    lemma_words();
    match (payload_username(payload), payload_scope(payload)) {
        (Ok(username), Ok(scope)) => {
            let before = permissions_of(registry, username);
            let after = granted(before, scope);
            if !holds_scope(before, scope) {
                assert(after[before.len() as int] == Json::Text(scope));
            }
            let done = user_managed(registry, "grant_permission"@, payload)->Ok_0;
            assert(permissions_of(done.0, username) == after);
            let again = with_permissions(done.0, username, after);
            let entry = user_entry(users_of(done.0), username);
            assert(entry.insert("permissions"@, Json::Array(after)) =~= entry);
            assert(users_of(again) =~= users_of(done.0));
            assert(again->Object_0 =~= done.0->Object_0);
        },
        _ => {},
    }
}

/// A permission that was revoked is not held any more; the others are held as before.
pub proof fn law_revoked_is_gone(registry: Json, payload: Json, other: Seq<char>)
    ensures
        (payload_username(payload), payload_scope(payload)) matches (Ok(username), Ok(scope))
            ==> (user_managed(registry, "revoke_permission"@, payload) matches Ok(done)
            && !holds_scope(permissions_of(done.0, username), scope) && (other != scope ==> (
        holds_scope(permissions_of(done.0, username), other) <==> holds_scope(
            permissions_of(registry, username),
            other,
        )))),
{
    lemma_words();
    match (payload_username(payload), payload_scope(payload)) {
        (Ok(username), Ok(scope)) => {
            let before = permissions_of(registry, username);
            lemma_revoked(before, scope, before.len() as int);
            let done = user_managed(registry, "revoke_permission"@, payload)->Ok_0;
            assert(permissions_of(done.0, username) == without_text(
                before,
                scope,
                before.len() as int,
            ));
        },
        _ => {},
    }
}

/// A user that was dropped is gone, and so are the user's permissions. To drop the user again
/// changes nothing.
pub proof fn law_dropped_user_is_gone(registry: Json, payload: Json)
    ensures
        payload_username(payload) matches Ok(username) ==> (user_managed(
            registry,
            "drop_user"@,
            payload,
        ) matches Ok(done) && !users_of(done.0).dom().contains(username) && permissions_of(
            done.0,
            username,
        ).len() == 0 && user_managed(done.0, "drop_user"@, payload) == Ok::<
            (Json, Json),
            Failure,
        >(done)),
{
    lemma_words();
    match payload_username(payload) {
        Ok(username) => {
            reveal_strlit("permissions");
            reveal_strlit("username");
            assert("permissions"@.len() == 11 && "username"@.len() == 8);
            let done = user_managed(registry, "drop_user"@, payload)->Ok_0;
            let users = users_of(registry).remove(username);
            assert(users_of(done.0) == users);
            assert(users.remove(username) =~= users);
            assert(with_users(done.0, users)->Object_0 =~= done.0->Object_0);
        },
        _ => {},
    }
}

/// A user that was created is known, with what the payload says.
pub proof fn law_created_user_is_known(registry: Json, payload: Json)
    ensures
        payload_username(payload) matches Ok(username) ==> (user_managed(
            registry,
            "create_user"@,
            payload,
        ) matches Ok(done) && users_of(done.0).dom().contains(username) && (
        payload matches Json::Object(fields) ==> users_of(done.0)[username] == Json::Object(
            fields.insert("username"@, Json::Text(username)),
        ))),
{
    lemma_words();
}

/// A request about one user leaves the others as they are.
pub proof fn law_other_users_stay(
    registry: Json,
    action: Seq<char>,
    payload: Json,
    other: Seq<char>,
)
    requires
        payload_username(payload) matches Ok(username) ==> other != username,
    ensures
        user_managed(registry, action, payload) matches Ok(done) ==> (users_of(
            done.0,
        ).dom().contains(other) <==> users_of(registry).dom().contains(other)) && (users_of(
            registry,
        ).dom().contains(other) ==> users_of(done.0)[other] == users_of(registry)[other]),
{
    reveal_strlit("users");
    reveal_strlit("operations");
    assert("users"@.len() == 5 && "operations"@.len() == 10);
}

pub proof fn lemma_words()
    ensures
        action_word("grant_permission"@) == "grant_permission"@,
        action_word("revoke_permission"@) == "revoke_permission"@,
        "grant_permission"@ != "revoke_permission"@,
        "grant_permission"@ != "add_user"@,
        "grant_permission"@ != "add"@,
        "grant_permission"@ != "create_user"@,
        "revoke_permission"@ != "add_user"@,
        "revoke_permission"@ != "add"@,
        "revoke_permission"@ != "create_user"@,
        "grant_permission"@ != "drop_user"@,
        "revoke_permission"@ != "drop_user"@,
        action_word("create_user"@) == "create_user"@,
        action_word("drop_user"@) == "drop_user"@,
        "drop_user"@ != "add_user"@,
        "drop_user"@ != "add"@,
        "drop_user"@ != "create_user"@,
{
    reveal_strlit("drop_user");
    assert("drop_user"@.len() == 9);
    assert(action_word("drop_user"@) =~= "drop_user"@);
    reveal_strlit("grant_permission");
    reveal_strlit("revoke_permission");
    reveal_strlit("add_user");
    reveal_strlit("add");
    reveal_strlit("create_user");
    assert("grant_permission"@.len() == 16 && "revoke_permission"@.len() == 17);
    assert("add_user"@.len() == 8 && "add"@.len() == 3 && "create_user"@.len() == 11);
    assert(action_word("grant_permission"@) =~= "grant_permission"@);
    assert(action_word("revoke_permission"@) =~= "revoke_permission"@);
    assert(action_word("create_user"@) =~= "create_user"@);
}

} // verus!
