//! Rules of namespaces: who may act on one, how updates apply, the limit on
//! namespaces per user, and the notices their members receive.
use vstd::prelude::*;
use vstd::string::StringExecFns;
use crate::errors::{QueryError, RequestError, ServerError};
use crate::accounts::{bcrypt_failure, bcrypt_hash, bcrypt_verify_outcome, hash_cost, hash_made_at_cost, spec_hash_cost};
use crate::config::Config;
use crate::uuid_text::{parse_uuid, uuid_hyphenated, uuid_parse, uuid_text};
use crate::role::{
    is_standard, lemma_role_name_roundtrip, lemma_standard_permissions_monotone, role_name,
    standard_permissions, standard_weight, Role, RolePermissionView,
    get_perms, get_weight, has_permission, spec_string_to_role, string_to_role, Permission,
    RoleRules,
};

verus! {

/// How many namespaces one user may belong to.
pub const NAMESPACE_LIMIT: u64 = 10;

/// A namespace as stored: ids are UUIDs as 128-bit numbers, times are
/// milliseconds since the Unix epoch.
#[derive(Debug, Clone)]
pub struct NamespaceRecord {
    pub id: u128,
    pub active: bool,
    pub service_name: String,
    pub environment_type: String,
    pub client_id: u128,
    pub client_secret: u128,
    pub created_at: i64,
    pub updated_at: i64,
}

/// The changes a namespace update asks for; `client_secret: Some(true)` asks
/// for a fresh secret.
#[derive(Debug, Clone)]
pub struct UpdateNamespace {
    pub id: u128,
    pub active: Option<bool>,
    pub service_name: Option<String>,
    pub environment_type: Option<String>,
    pub client_id: Option<u128>,
    pub client_secret: Option<bool>,
}

/// When both members' stored roles name roles, both have entries in the
/// table (comparing their weights reads both).
pub open spec fn weights_known(rules: RoleRules, requester: Option<Seq<char>>, target: Option<Seq<char>>) -> bool {
    match (requester, target) {
        (Some(a), Some(b)) => spec_string_to_role(a) is Some && spec_string_to_role(b) is Some
            ==> has_entry_if_role(rules, a) && has_entry_if_role(rules, b),
        _ => true,
    }
}

/// The stored role `role`, when it names a role, has an entry in the table.
pub open spec fn has_entry_if_role(rules: RoleRules, role: Seq<char>) -> bool {
    spec_string_to_role(role) matches Some(r) ==> rules.lookup(r) is Some
}

/// Whether the member whose stored role is `role` may perform `action`: the
/// text names a role whose entry in the table grants it.
pub open spec fn spec_role_allows(rules: RoleRules, role: Seq<char>, action: Permission) -> bool {
    match spec_string_to_role(role) {
        Some(r) => rules.lookup(r) matches Some(p) && p.permissions.contains(action),
        None => false,
    }
}

/// Answer to "may this member do `action` here?": no membership is
/// `UserNamespaceJunctionNotFound`; a role that is unknown or lacks the
/// permission is `PermissionDenied`; otherwise `true`.
pub open spec fn spec_permission_decision(
    membership: Option<Seq<char>>,
    rules: RoleRules,
    action: Permission,
) -> Result<bool, ServerError> {
    match membership {
        None => Err(ServerError::QueryError(QueryError::UserNamespaceJunctionNotFound)),
        Some(role) => if spec_role_allows(rules, role, action) {
            Ok(true)
        } else {
            Err(ServerError::RequestError(RequestError::PermissionDenied))
        },
    }
}

pub open spec fn opt_string_view(o: Option<&String>) -> Option<Seq<char>> {
    match o {
        Some(s) => Some(s@),
        None => None,
    }
}

/// Decides a permission check from the member's stored role (`None` when the
/// user is not a member of the namespace).
pub fn check_user_namespace_perms(
    membership: Option<&String>,
    rules: &RoleRules,
    action: Permission,
) -> (r: Result<bool, ServerError>)
    requires
        rules.wf(),
        membership matches Some(role) ==> has_entry_if_role(*rules, role@),
    ensures
        r == spec_permission_decision(opt_string_view(membership), *rules, action),
        r is Ok ==> r == Ok::<bool, ServerError>(true),
        membership is None
            ==> r == Err::<bool, ServerError>(ServerError::QueryError(QueryError::UserNamespaceJunctionNotFound)),
        membership matches Some(x) && spec_string_to_role(x@) is None
            ==> r == Err::<bool, ServerError>(ServerError::RequestError(RequestError::PermissionDenied)),
        membership matches Some(x) ==> spec_string_to_role(x@) matches Some(ra) ==> rules.lookup(ra) matches Some(pa)
            ==> (r is Ok <==> pa.permissions.contains(action)),
        r is Err ==> r == Err::<bool, ServerError>(ServerError::QueryError(QueryError::UserNamespaceJunctionNotFound))
            || r == Err::<bool, ServerError>(ServerError::RequestError(RequestError::PermissionDenied)),
{
    match membership {
        None => Err(ServerError::QueryError(QueryError::UserNamespaceJunctionNotFound)),
        Some(role) => {
            match get_perms(role.as_str(), rules) {
                Some(perms) => {
                    if has_permission(perms, action) {
                        Ok(true)
                    } else {
                        Err(ServerError::RequestError(RequestError::PermissionDenied))
                    }
                },
                None => Err(ServerError::RequestError(RequestError::PermissionDenied)),
            }
        },
    }
}

/// The weight of a stored role, if it names one.
pub open spec fn spec_role_weight(rules: RoleRules, role: Seq<char>) -> Option<u8> {
    match spec_string_to_role(role) {
        Some(r) => Some(rules.lookup(r)->0.weight),
        None => None,
    }
}

/// Answer to "does the requester rank at least as high as the target?": a
/// missing membership of either is `UserNamespaceJunctionNotFound`; a role
/// that names no role is `PermissionDenied`; a lower rank is `PermissionDenied`.
pub open spec fn spec_compare_decision(
    requester: Option<Seq<char>>,
    target: Option<Seq<char>>,
    rules: RoleRules,
) -> Result<bool, ServerError> {
    match (requester, target) {
        (Some(a), Some(b)) => match (spec_role_weight(rules, a), spec_role_weight(rules, b)) {
            (Some(wa), Some(wb)) => if wa >= wb {
                Ok(true)
            } else {
                Err(ServerError::RequestError(RequestError::PermissionDenied))
            },
            _ => Err(ServerError::RequestError(RequestError::PermissionDenied)),
        },
        _ => Err(ServerError::QueryError(QueryError::UserNamespaceJunctionNotFound)),
    }
}

fn role_weight(rules: &RoleRules, role: &String) -> (r: Option<u8>)
    requires
        rules.wf(),
        has_entry_if_role(*rules, role@),
    ensures
        r == spec_role_weight(*rules, role@),
{
    match string_to_role(role.as_str()) {
        Some(rl) => {
            let w = get_weight(&rl, rules);
            Some(w.unwrap())
        },
        None => None,
    }
}

/// Decides whether the requester may act on the target member, from both
/// members' stored roles (`None` for a user who is not a member).
pub fn compare_user_namespace_perms(
    requester: Option<&String>,
    target: Option<&String>,
    rules: &RoleRules,
) -> (r: Result<bool, ServerError>)
    requires
        rules.wf(),
        weights_known(*rules, opt_string_view(requester), opt_string_view(target)),
    ensures
        r == spec_compare_decision(opt_string_view(requester), opt_string_view(target), *rules),
        requester is None || target is None
            ==> r == Err::<bool, ServerError>(ServerError::QueryError(QueryError::UserNamespaceJunctionNotFound)),
        r is Ok ==> r == Ok::<bool, ServerError>(true),
        requester matches Some(x) ==> target matches Some(y) ==> spec_string_to_role(x@) matches Some(ra)
            ==> spec_string_to_role(y@) matches Some(rb) ==> rules.lookup(ra) matches Some(pa)
            ==> rules.lookup(rb) matches Some(pb) ==> (r is Ok <==> pa.weight >= pb.weight),
{
    match (requester, target) {
        (Some(a), Some(b)) => {
            if string_to_role(a.as_str()).is_none() || string_to_role(b.as_str()).is_none() {
                return Err(ServerError::RequestError(RequestError::PermissionDenied));
            }
            match (role_weight(rules, a), role_weight(rules, b)) {
                (Some(wa), Some(wb)) => {
                    if wa >= wb {
                        Ok(true)
                    } else {
                        Err(ServerError::RequestError(RequestError::PermissionDenied))
                    }
                },
                _ => Err(ServerError::RequestError(RequestError::PermissionDenied)),
            }
        },
        _ => Err(ServerError::QueryError(QueryError::UserNamespaceJunctionNotFound)),
    }
}

/// With the standard role table, a member may act on another member exactly
/// when their role weighs at least as much: members of equal rank may act on
/// each other, and a lower rank is refused.
pub proof fn lemma_rank_comparison(rules: RoleRules, a: crate::role::Role, b: crate::role::Role)
    requires
        crate::role::is_standard(rules),
    ensures
        crate::role::standard_weight(a) >= crate::role::standard_weight(b) ==> spec_compare_decision(
            Some(crate::role::role_name(a)),
            Some(crate::role::role_name(b)),
            rules,
        ) == Ok::<bool, ServerError>(true),
        crate::role::standard_weight(a) < crate::role::standard_weight(b) ==> spec_compare_decision(
            Some(crate::role::role_name(a)),
            Some(crate::role::role_name(b)),
            rules,
        ) == Err::<bool, ServerError>(ServerError::RequestError(RequestError::PermissionDenied)),
        spec_compare_decision(Some(crate::role::role_name(a)), Some(crate::role::role_name(a)), rules)
            == Ok::<bool, ServerError>(true),
{
    crate::role::lemma_role_name_roundtrip(a);
    crate::role::lemma_role_name_roundtrip(b);
    assert(rules.lookup(a) == Some(crate::role::RolePermissionView { permissions: crate::role::standard_permissions(a), weight: crate::role::standard_weight(a) }));
    assert(rules.lookup(b) == Some(crate::role::RolePermissionView { permissions: crate::role::standard_permissions(b), weight: crate::role::standard_weight(b) }));
}

/// Answer to "may a member with `own_role` hand out `new_role`?": both must
/// name roles (else `InvalidRole`), and the new role may not outrank the
/// member's own (else `PermissionDenied`).
pub open spec fn spec_role_grant_decision(
    own_role: Seq<char>,
    new_role: Seq<char>,
    rules: RoleRules,
) -> Result<(), ServerError> {
    match spec_role_weight(rules, new_role) {
        None => Err(ServerError::QueryError(QueryError::InvalidRole)),
        Some(wn) => match spec_role_weight(rules, own_role) {
            None => Err(ServerError::QueryError(QueryError::InvalidRole)),
            Some(wo) => if wo < wn {
                Err(ServerError::RequestError(RequestError::PermissionDenied))
            } else {
                Ok(())
            },
        },
    }
}

/// Decides whether a member whose role is `own_role` may set another member's
/// role to `new_role`.
pub fn check_role_grant(own_role: &String, new_role: &String, rules: &RoleRules) -> (r: Result<(), ServerError>)
    requires
        rules.wf(),
        has_entry_if_role(*rules, new_role@),
        spec_string_to_role(new_role@) is Some ==> has_entry_if_role(*rules, own_role@),
    ensures
        r == spec_role_grant_decision(own_role@, new_role@, *rules),
        spec_string_to_role(new_role@) is None ==> r == Err::<(), ServerError>(ServerError::QueryError(QueryError::InvalidRole)),
        spec_string_to_role(new_role@) is Some && spec_string_to_role(own_role@) is None
            ==> r == Err::<(), ServerError>(ServerError::QueryError(QueryError::InvalidRole)),
        spec_string_to_role(new_role@) matches Some(rn) ==> spec_string_to_role(own_role@) matches Some(ro)
            ==> rules.lookup(rn) matches Some(pn) ==> rules.lookup(ro) matches Some(po)
            ==> (r is Ok <==> po.weight >= pn.weight),
{
    match role_weight(rules, new_role) {
        None => Err(ServerError::QueryError(QueryError::InvalidRole)),
        Some(wn) => match role_weight(rules, own_role) {
            None => Err(ServerError::QueryError(QueryError::InvalidRole)),
            Some(wo) => {
                if wo < wn {
                    Err(ServerError::RequestError(RequestError::PermissionDenied))
                } else {
                    Ok(())
                }
            },
        },
    }
}

/// Answer to "may this member update the namespace?": no membership is
/// `UserNamespaceJunctionNotFound`; a role that is unknown or lacks `Update`
/// is `PermissionDenied`.
pub open spec fn spec_update_permission(membership: Option<Seq<char>>, rules: RoleRules) -> Result<(), ServerError> {
    match membership {
        None => Err(ServerError::QueryError(QueryError::UserNamespaceJunctionNotFound)),
        Some(role) => if spec_role_allows(rules, role, Permission::Update) {
            Ok(())
        } else {
            Err(ServerError::RequestError(RequestError::PermissionDenied))
        },
    }
}

/// Decides whether a member (by stored role) may update the namespace.
pub fn check_update_permission(membership: Option<&String>, rules: &RoleRules) -> (r: Result<(), ServerError>)
    requires
        rules.wf(),
    ensures
        r == spec_update_permission(opt_string_view(membership), *rules),
        membership is None
            ==> r == Err::<(), ServerError>(ServerError::QueryError(QueryError::UserNamespaceJunctionNotFound)),
        membership matches Some(x) && spec_string_to_role(x@) is None
            ==> r == Err::<(), ServerError>(ServerError::RequestError(RequestError::PermissionDenied)),
        membership matches Some(x) ==> spec_string_to_role(x@) matches Some(ra) ==> rules.lookup(ra) matches Some(pa)
            ==> (r is Ok <==> pa.permissions.contains(Permission::Update)),
        r is Err ==> r == Err::<(), ServerError>(ServerError::QueryError(QueryError::UserNamespaceJunctionNotFound))
            || r == Err::<(), ServerError>(ServerError::RequestError(RequestError::PermissionDenied)),
{
    match membership {
        None => Err(ServerError::QueryError(QueryError::UserNamespaceJunctionNotFound)),
        Some(role) => match get_perms(role.as_str(), rules) {
            Some(perms) => {
                if has_permission(perms, Permission::Update) {
                    Ok(())
                } else {
                    Err(ServerError::RequestError(RequestError::PermissionDenied))
                }
            },
            None => Err(ServerError::RequestError(RequestError::PermissionDenied)),
        },
    }
}

/// The namespace after an update: each field given replaces the stored one,
/// a request for a new secret installs `fresh_secret`, and the update time
/// becomes `now`.
pub open spec fn spec_apply_update(ns: NamespaceRecord, upd: UpdateNamespace, fresh_secret: u128, now: i64) -> NamespaceRecord {
    NamespaceRecord {
        id: ns.id,
        active: match upd.active {
            Some(a) => a,
            None => ns.active,
        },
        service_name: match upd.service_name {
            Some(s) => s,
            None => ns.service_name,
        },
        environment_type: match upd.environment_type {
            Some(s) => s,
            None => ns.environment_type,
        },
        client_id: match upd.client_id {
            Some(c) => c,
            None => ns.client_id,
        },
        client_secret: if upd.client_secret == Some(true) {
            fresh_secret
        } else {
            ns.client_secret
        },
        created_at: ns.created_at,
        updated_at: now,
    }
}

/// `r` is `ns` with the update `upd` made at `now`: each field the update
/// gives holds the given value and every other field the stored one; a
/// request for a new secret installs `fresh_secret`; the id and creation time
/// stay and the update time is `now`.
pub open spec fn namespace_update_applied(ns: NamespaceRecord, upd: UpdateNamespace, fresh_secret: u128, now: i64, r: NamespaceRecord) -> bool {
    &&& (upd.active matches Some(a) ==> r.active == a) && (upd.active is None ==> r.active == ns.active)
    &&& (upd.service_name matches Some(n) ==> r.service_name == n) && (upd.service_name is None ==> r.service_name == ns.service_name)
    &&& (upd.environment_type matches Some(e) ==> r.environment_type == e)
        && (upd.environment_type is None ==> r.environment_type == ns.environment_type)
    &&& (upd.client_id matches Some(c) ==> r.client_id == c) && (upd.client_id is None ==> r.client_id == ns.client_id)
    &&& (upd.client_secret == Some(true) ==> r.client_secret == fresh_secret)
        && (upd.client_secret != Some(true) ==> r.client_secret == ns.client_secret)
    &&& r.id == ns.id && r.created_at == ns.created_at && r.updated_at == now
}

/// Updating a namespace sets each field the update gives (a rename renames
/// it), keeps every other field, installs the fresh secret only when asked,
/// and stamps the update time.
pub proof fn lemma_namespace_update_sets_given_fields(ns: NamespaceRecord, upd: UpdateNamespace, fresh_secret: u128, now: i64)
    ensures
        namespace_update_applied(ns, upd, fresh_secret, now, spec_apply_update(ns, upd, fresh_secret, now)),
{
}

/// Applies an update to a stored namespace.
pub fn apply_namespace_update(ns: NamespaceRecord, upd: UpdateNamespace, fresh_secret: u128, now: i64) -> (r: NamespaceRecord)
    ensures
        r == spec_apply_update(ns, upd, fresh_secret, now),
        namespace_update_applied(ns, upd, fresh_secret, now, r),
{
    let mut ns = ns;
    if let Some(active) = upd.active {
        ns.active = active;
    }
    if let Some(name) = upd.service_name {
        ns.service_name = name;
    }
    if let Some(env_type) = upd.environment_type {
        ns.environment_type = env_type;
    }
    if let Some(client_id) = upd.client_id {
        ns.client_id = client_id;
    }
    if let Some(client_secret) = upd.client_secret {
        if client_secret {
            ns.client_secret = fresh_secret;
        }
    }
    ns.updated_at = now;
    ns
}

/// A user already in `current` namespaces may not create another once the
/// limit is reached.
pub fn check_namespace_limit(current: u64) -> (r: Result<(), ServerError>)
    ensures
        r is Ok <==> current < NAMESPACE_LIMIT,
        r matches Err(e) ==> e == ServerError::RequestError(RequestError::NamespaceLimitReached),
{
    if current >= NAMESPACE_LIMIT {
        Err(ServerError::RequestError(RequestError::NamespaceLimitReached))
    } else {
        Ok(())
    }
}

/// A new, active namespace with the given ids, names and creation time.
pub fn new_namespace_record(
    id: u128,
    service_name: String,
    environment_type: String,
    client_id: u128,
    client_secret: u128,
    now: i64,
) -> (r: NamespaceRecord)
    ensures
        r == (NamespaceRecord {
            id,
            active: true,
            service_name,
            environment_type,
            client_id,
            client_secret,
            created_at: now,
            updated_at: now,
        }),
{
    NamespaceRecord {
        id,
        active: true,
        service_name,
        environment_type,
        client_id,
        client_secret,
        created_at: now,
        updated_at: now,
    }
}

/// The role the creator of a namespace receives.
pub fn creator_role() -> (r: String)
    ensures
        r@ == "owner"@,
{
    let mut r = String::new();
    r.append("owner");
    r
}

/// The notice sent to a user who created a namespace.
pub fn namespace_created_text(service_name: &String) -> (r: String)
    ensures
        r@ == "You have created a new namespace: "@ + service_name@
            + ". You can begin sending errors now. View to documentation to get started."@,
{
    let mut r = String::new();
    r.append("You have created a new namespace: ");
    r.append(service_name.as_str());
    r.append(". You can begin sending errors now. View to documentation to get started.");
    r
}

/// The notice sent to each member of a deleted namespace.
pub fn namespace_deleted_text(service_name: &String) -> (r: String)
    ensures
        r@ == "The namespace "@ + service_name@
            + " has been deleted. You will no longer receive alerts for this namespace."@,
{
    let mut r = String::new();
    r.append("The namespace ");
    r.append(service_name.as_str());
    r.append(" has been deleted. You will no longer receive alerts for this namespace.");
    r
}

/// Answer to "may `user_id` delete the namespace?": no membership is
/// `UserNamespaceJunctionNotFound`, a missing namespace `NamespaceNotFound`,
/// a membership of someone else `PermissionDenied`.
pub open spec fn spec_delete_decision(
    membership_user: Option<u128>,
    namespace_found: bool,
    user_id: u128,
) -> Result<(), ServerError> {
    match membership_user {
        None => Err(ServerError::QueryError(QueryError::UserNamespaceJunctionNotFound)),
        Some(owner) => if !namespace_found {
            Err(ServerError::QueryError(QueryError::NamespaceNotFound))
        } else if owner != user_id {
            Err(ServerError::RequestError(RequestError::PermissionDenied))
        } else {
            Ok(())
        },
    }
}

/// Decides whether a namespace deletion may go ahead, from the membership
/// found for the user (its user id) and whether the namespace exists.
pub fn check_delete_namespace(membership_user: Option<u128>, namespace_found: bool, user_id: u128) -> (r: Result<(), ServerError>)
    ensures
        r == spec_delete_decision(membership_user, namespace_found, user_id),
{
    match membership_user {
        None => Err(ServerError::QueryError(QueryError::UserNamespaceJunctionNotFound)),
        Some(owner) => {
            if !namespace_found {
                Err(ServerError::QueryError(QueryError::NamespaceNotFound))
            } else if owner != user_id {
                Err(ServerError::RequestError(RequestError::PermissionDenied))
            } else {
                Ok(())
            }
        },
    }
}

/// A membership: which user belongs to which namespace, with what role.
#[derive(Debug, Clone)]
pub struct Membership {
    pub user_id: u128,
    pub namespace_id: u128,
    pub role: String,
}

/// The role stored for the first membership of namespace `ns`, if any.
pub open spec fn first_role_for(ms: Seq<Membership>, ns: u128) -> Option<Seq<char>>
    decreases ms.len(),
{
    if ms.len() == 0 {
        None
    } else if ms[0].namespace_id == ns {
        Some(ms[0].role@)
    } else {
        first_role_for(ms.drop_first(), ns)
    }
}

/// The role of the first membership that names namespace `ns` (how a user's
/// namespaces are labelled with the user's role).
pub fn role_for_namespace(ms: &Vec<Membership>, ns: u128) -> (r: Option<String>)
    ensures
        match r {
            Some(s) => first_role_for(ms@, ns) == Some(s@),
            None => first_role_for(ms@, ns) is None,
        },
{
    let mut i: usize = 0;
    assert(ms@.skip(0) =~= ms@);
    while i < ms.len()
        invariant
            i <= ms@.len(),
            first_role_for(ms@, ns) == first_role_for(ms@.skip(i as int), ns),
        decreases ms@.len() - i,
    {
        assert(ms@.skip(i as int).drop_first() =~= ms@.skip(i + 1));
        if ms[i].namespace_id == ns {
            return Some(ms[i].role.clone());
        }
        i = i + 1;
    }
    None
}

/// The role stored for the last membership of user `user`, if any.
pub open spec fn last_role_for(ms: Seq<Membership>, user: u128) -> Option<Seq<char>>
    decreases ms.len(),
{
    if ms.len() == 0 {
        None
    } else if ms.last().user_id == user {
        Some(ms.last().role@)
    } else {
        last_role_for(ms.drop_last(), user)
    }
}

/// A member's role as the member list shows it: the role of the user's last
/// membership in the list, or "unknown".
pub fn member_role(ms: &Vec<Membership>, user: u128) -> (r: String)
    ensures
        r@ == match last_role_for(ms@, user) {
            Some(role) => role,
            None => "unknown"@,
        },
{
    let mut i: usize = ms.len();
    assert(ms@.take(ms@.len() as int) =~= ms@);
    while i > 0
        invariant
            i <= ms@.len(),
            last_role_for(ms@, user) == last_role_for(ms@.take(i as int), user),
        decreases i,
    {
        assert(ms@.take(i as int).drop_last() =~= ms@.take(i - 1));
        if ms[i - 1].user_id == user {
            return ms[i - 1].role.clone();
        }
        i = i - 1;
    }
    let mut r = String::new();
    r.append("unknown");
    r
}

}

verus! {

pub open spec fn opt_str_view(o: Option<&str>) -> Option<Seq<char>> {
    match o {
        Some(s) => Some(s@),
        None => None,
    }
}

/// The credentials an SDK request presents: both headers must be there
/// (else 401 "Missing client_id or client_secret header") and the client id
/// must read as a UUID (else 401 "Invalid client_id format").
pub open spec fn spec_sdk_credentials(client_id: Option<Seq<char>>, client_secret: Option<Seq<char>>) -> Result<(u128, Seq<char>), (u16, Seq<char>)> {
    match (client_id, client_secret) {
        (Some(id), Some(secret)) => match uuid_parse(id) {
            Some(v) => Ok((v, secret)),
            None => Err((401, "Invalid client_id format"@)),
        },
        _ => Err((401, "Missing client_id or client_secret header"@)),
    }
}

pub fn sdk_credentials(client_id: Option<&str>, client_secret: Option<&str>) -> (r: Result<(u128, String), ServerError>)
    ensures
        match spec_sdk_credentials(opt_str_view(client_id), opt_str_view(client_secret)) {
            Ok((id, secret)) => r matches Ok((i, s)) && i == id && s@ == secret,
            Err((code, text)) => r matches Err(ServerError::HttpError(c, t)) && c == code && t@ == text,
        },
{
    match (client_id, client_secret) {
        (Some(id), Some(secret)) => match parse_uuid(id) {
            Some(v) => Ok((v, secret.to_string())),
            None => Err(ServerError::HttpError(401, "Invalid client_id format".to_string())),
        },
        _ => Err(ServerError::HttpError(401, "Missing client_id or client_secret header".to_string())),
    }
}

/// A client is let in when the namespace with its client id exists and the
/// secret it presents is that namespace's client secret in hyphenated form.
pub open spec fn spec_client_valid(ns: Option<NamespaceRecord>, secret: Seq<char>) -> bool {
    ns matches Some(n) && secret == uuid_hyphenated(n.client_secret)
}

pub open spec fn opt_ns(o: Option<&NamespaceRecord>) -> Option<NamespaceRecord> {
    match o {
        Some(n) => Some(*n),
        None => None,
    }
}

/// Decides an SDK request once the namespace of its client id was looked up:
/// an unknown client or a wrong secret is 401 "Invalid client_id or client_secret".
pub fn check_client(ns: Option<&NamespaceRecord>, secret: &String) -> (r: Result<(), ServerError>)
    ensures
        spec_client_valid(opt_ns(ns), secret@) ==> r is Ok,
        !spec_client_valid(opt_ns(ns), secret@) ==> (r matches Err(ServerError::HttpError(c, t))
            && c == 401 && t@ == "Invalid client_id or client_secret"@),
{
    match ns {
        Some(n) => {
            let expected = uuid_text(n.client_secret);
            if expected == *secret {
                Ok(())
            } else {
                Err(ServerError::HttpError(401, "Invalid client_id or client_secret".to_string()))
            }
        },
        None => Err(ServerError::HttpError(401, "Invalid client_id or client_secret".to_string())),
    }
}

/// A namespace as shown to its members; the client secret is shown only as a
/// bcrypt hash of its hyphenated text.
#[derive(Debug)]
pub struct NamespaceDetails {
    pub id: u128,
    pub active: bool,
    pub service_name: String,
    pub environment_type: String,
    pub client_id: u128,
    pub client_secret_hash: String,
    pub created_at: i64,
    pub updated_at: i64,
}

/// The namespace found, with its secret hashed at the configured cost (which
/// must be one bcrypt accepts): no namespace is `NamespaceNotFound`; a hash
/// that fails for want of a random salt is a bcrypt error.
pub fn namespace_details(found: Option<&NamespaceRecord>, config: &Config) -> (r: Result<NamespaceDetails, ServerError>)
    requires
        4 <= spec_hash_cost(config.hash_cost@) <= 31,
    ensures
        match opt_ns(found) {
            None => r matches Err(e) && e == ServerError::QueryError(QueryError::NamespaceNotFound),
            Some(n) => match r {
                Ok(d) => d.id == n.id && d.active == n.active && d.service_name@ == n.service_name@
                    && d.environment_type@ == n.environment_type@ && d.client_id == n.client_id
                    && d.created_at == n.created_at && d.updated_at == n.updated_at
                    && bcrypt_verify_outcome(uuid_hyphenated(n.client_secret), d.client_secret_hash@) == Some(true)
                    && hash_made_at_cost(d.client_secret_hash@, spec_hash_cost(config.hash_cost@)),
                Err(e) => e matches ServerError::ExternalError(crate::errors::ExternalError::Bcrypt(_)),
            },
        },
{
    match found {
        None => Err(ServerError::QueryError(QueryError::NamespaceNotFound)),
        Some(n) => {
            let cost = hash_cost(config.hash_cost.as_str());
            let secret = uuid_text(n.client_secret);
            match bcrypt_hash(secret.as_str(), cost) {
                Ok(h) => Ok(NamespaceDetails {
                    id: n.id,
                    active: n.active,
                    service_name: n.service_name.clone(),
                    environment_type: n.environment_type.clone(),
                    client_id: n.client_id,
                    client_secret_hash: h,
                    created_at: n.created_at,
                    updated_at: n.updated_at,
                }),
                Err(e) => Err(bcrypt_failure(e)),
            }
        },
    }
}

} // verus!

verus! {

/// Only a member of a namespace may remove one of its members (else `PermissionDenied`).
pub fn check_remover_is_member(is_member: bool) -> (r: Result<(), ServerError>)
    ensures
        is_member ==> r is Ok,
        !is_member ==> r == Err::<(), ServerError>(ServerError::RequestError(RequestError::PermissionDenied)),
{
    if is_member {
        Ok(())
    } else {
        Err(ServerError::RequestError(RequestError::PermissionDenied))
    }
}

/// A membership looked up for removal exists (else `UserNamespaceJunctionNotFound`).
pub fn check_membership_found(found: bool) -> (r: Result<(), ServerError>)
    ensures
        found ==> r is Ok,
        !found ==> r == Err::<(), ServerError>(ServerError::QueryError(QueryError::UserNamespaceJunctionNotFound)),
{
    if found {
        Ok(())
    } else {
        Err(ServerError::QueryError(QueryError::UserNamespaceJunctionNotFound))
    }
}

} // verus!

verus! {

/// With the standard rules, a member whose role ranks at least as high as
/// one that may perform an action may perform it too.
pub proof fn lemma_higher_role_keeps_permission(rules: RoleRules, a: Role, b: Role, action: Permission)
    requires
        is_standard(rules),
        standard_weight(a) <= standard_weight(b),
        spec_permission_decision(Some(role_name(a)), rules, action) is Ok,
    ensures
        spec_permission_decision(Some(role_name(b)), rules, action) is Ok,
{
    lemma_role_name_roundtrip(a);
    lemma_role_name_roundtrip(b);
    assert(rules.lookup(a) == Some(RolePermissionView { permissions: standard_permissions(a), weight: standard_weight(a) }));
    assert(rules.lookup(b) == Some(RolePermissionView { permissions: standard_permissions(b), weight: standard_weight(b) }));
    lemma_standard_permissions_monotone(a, b, action);
}

} // verus!
