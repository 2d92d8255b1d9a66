use vstd::prelude::*;
use crate::text::{chars_eq, str_chars};

verus! {

/// A member's role inside a namespace, from least to most privileged.
#[derive(Debug, PartialEq, Eq, Structural, Clone, Copy, Hash)]
pub enum Role {
    Guest,
    Member,
    Contributor,
    Manager,
    Owner,
}

/// An action a member may be allowed to take inside a namespace.
#[derive(Debug, PartialEq, Eq, Structural, Clone, Copy, Hash)]
pub enum Permission {
    View,
    AddAlert,
    Comment,
    Delete,
    Invite,
    RemoveUser,
    Update,
}

/// The permissions granted to one role, and its rank.
#[derive(Debug, Clone)]
pub struct RolePermission {
    pub permissions: Vec<Permission>,
    pub weight: u8,
}

/// The rule table: one entry per role.
#[derive(Debug, Clone)]
pub struct RoleRules {
    pub role_rules: Vec<(Role, RolePermission)>,
}

/// Spec-level value of one role's entry: its permissions and its weight.
pub struct RolePermissionView {
    pub permissions: Seq<Permission>,
    pub weight: u8,
}

impl RolePermission {
    pub open spec fn view_perm(&self) -> RolePermissionView {
        RolePermissionView { permissions: self.permissions@, weight: self.weight }
    }
}

impl RoleRules {
    /// No role occurs twice in the table.
    pub open spec fn wf(&self) -> bool {
        forall|i: int, j: int|
            0 <= i < j < self.role_rules@.len() ==> #[trigger] self.role_rules@[i].0
                != #[trigger] self.role_rules@[j].0
    }

    /// The table as a map from role to its entry.
    pub open spec fn lookup(&self, role: Role) -> Option<RolePermissionView> {
        if exists|i: int| 0 <= i < self.role_rules@.len() && #[trigger] self.role_rules@[i].0 == role {
            let i = choose|i: int| 0 <= i < self.role_rules@.len() && #[trigger] self.role_rules@[i].0 == role;
            Some(self.role_rules@[i].1.view_perm())
        } else {
            None
        }
    }
}

/// Permissions of each role in the standard rule table.
pub open spec fn standard_permissions(role: Role) -> Seq<Permission> {
    match role {
        Role::Guest => seq![Permission::View],
        Role::Member => seq![Permission::View, Permission::Comment],
        Role::Contributor => seq![Permission::View, Permission::AddAlert, Permission::Comment],
        Role::Manager => seq![
            Permission::View,
            Permission::AddAlert,
            Permission::Comment,
            Permission::Delete,
            Permission::RemoveUser,
            Permission::Update,
        ],
        Role::Owner => seq![
            Permission::View,
            Permission::AddAlert,
            Permission::Comment,
            Permission::Delete,
            Permission::Invite,
            Permission::RemoveUser,
            Permission::Update,
        ],
    }
}

/// Weight (rank) of each role in the standard rule table.
pub open spec fn standard_weight(role: Role) -> u8 {
    match role {
        Role::Guest => 0,
        Role::Member => 1,
        Role::Contributor => 2,
        Role::Manager => 3,
        Role::Owner => 4,
    }
}

/// The standard table maps every role to its standard permissions and weight.
pub open spec fn is_standard(rules: RoleRules) -> bool {
    &&& rules.wf()
    &&& forall|r: Role|
        #[trigger] rules.lookup(r) == Some(
            RolePermissionView { permissions: standard_permissions(r), weight: standard_weight(r) },
        )
}

/// The lowercase name of a role, as stored in the database.
pub open spec fn role_name(role: Role) -> Seq<char> {
    match role {
        Role::Guest => seq!['g', 'u', 'e', 's', 't'],
        Role::Member => seq!['m', 'e', 'm', 'b', 'e', 'r'],
        Role::Contributor => seq!['c', 'o', 'n', 't', 'r', 'i', 'b', 'u', 't', 'o', 'r'],
        Role::Manager => seq!['m', 'a', 'n', 'a', 'g', 'e', 'r'],
        Role::Owner => seq!['o', 'w', 'n', 'e', 'r'],
    }
}

/// The role whose name is `s`, if any.
pub open spec fn spec_string_to_role(s: Seq<char>) -> Option<Role> {
    if s == role_name(Role::Guest) {
        Some(Role::Guest)
    } else if s == role_name(Role::Member) {
        Some(Role::Member)
    } else if s == role_name(Role::Contributor) {
        Some(Role::Contributor)
    } else if s == role_name(Role::Manager) {
        Some(Role::Manager)
    } else if s == role_name(Role::Owner) {
        Some(Role::Owner)
    } else {
        None
    }
}

fn make_entry(role: Role, permissions: Vec<Permission>, weight: u8) -> (r: (Role, RolePermission))
    ensures
        r.0 == role,
        r.1.permissions@ == permissions@,
        r.1.weight == weight,
{
    (role, RolePermission { permissions, weight })
}

/// Builds the standard rule table: Guest < Member < Contributor < Manager < Owner,
/// each with the permissions the dashboard grants it.
pub fn initialize_role_rules() -> (rules: RoleRules)
    ensures
        is_standard(rules),
{
    let mut v: Vec<(Role, RolePermission)> = Vec::new();
    v.push(make_entry(Role::Guest, vec![Permission::View], 0));
    v.push(make_entry(Role::Member, vec![Permission::View, Permission::Comment], 1));
    v.push(
        make_entry(
            Role::Contributor,
            vec![Permission::View, Permission::AddAlert, Permission::Comment],
            2,
        ),
    );
    v.push(
        make_entry(
            Role::Manager,
            vec![
                Permission::View,
                Permission::AddAlert,
                Permission::Comment,
                Permission::Delete,
                Permission::RemoveUser,
                Permission::Update,
            ],
            3,
        ),
    );
    v.push(
        make_entry(
            Role::Owner,
            vec![
                Permission::View,
                Permission::AddAlert,
                Permission::Comment,
                Permission::Delete,
                Permission::Invite,
                Permission::RemoveUser,
                Permission::Update,
            ],
            4,
        ),
    );
    let rules = RoleRules { role_rules: v };
    proof {
        assert(rules.role_rules@[0].0 == Role::Guest);
        assert(rules.role_rules@[1].0 == Role::Member);
        assert(rules.role_rules@[2].0 == Role::Contributor);
        assert(rules.role_rules@[3].0 == Role::Manager);
        assert(rules.role_rules@[4].0 == Role::Owner);
        assert forall|r: Role|
            #[trigger] rules.lookup(r) == Some(
                RolePermissionView { permissions: standard_permissions(r), weight: standard_weight(r) },
            ) by {
            let k: int = match r {
                Role::Guest => 0,
                Role::Member => 1,
                Role::Contributor => 2,
                Role::Manager => 3,
                Role::Owner => 4,
            };
            assert(rules.role_rules@[k].0 == r);
            let i = choose|i: int| 0 <= i < rules.role_rules@.len() && #[trigger] rules.role_rules@[i].0 == r;
            assert(i == k);
            assert(rules.role_rules@[k].1.permissions@ =~= standard_permissions(r));
        }
    }
    rules
}


/// The role named by `role_str` ("guest", "member", "contributor", "manager",
/// "owner"); `None` for any other text.
pub fn string_to_role(role_str: &str) -> (r: Option<Role>)
    ensures
        r == spec_string_to_role(role_str@),
{
    let s = str_chars(role_str);
    let guest = ['g', 'u', 'e', 's', 't'];
    let member = ['m', 'e', 'm', 'b', 'e', 'r'];
    let contributor = ['c', 'o', 'n', 't', 'r', 'i', 'b', 'u', 't', 'o', 'r'];
    let manager = ['m', 'a', 'n', 'a', 'g', 'e', 'r'];
    let owner = ['o', 'w', 'n', 'e', 'r'];
    assert(guest@ =~= role_name(Role::Guest));
    assert(member@ =~= role_name(Role::Member));
    assert(contributor@ =~= role_name(Role::Contributor));
    assert(manager@ =~= role_name(Role::Manager));
    assert(owner@ =~= role_name(Role::Owner));
    if chars_eq(&s, &guest) {
        Some(Role::Guest)
    } else if chars_eq(&s, &member) {
        Some(Role::Member)
    } else if chars_eq(&s, &contributor) {
        Some(Role::Contributor)
    } else if chars_eq(&s, &manager) {
        Some(Role::Manager)
    } else if chars_eq(&s, &owner) {
        Some(Role::Owner)
    } else {
        None
    }
}

/// Index of `role`'s entry in the table.
fn find_role(rules: &RoleRules, role: Role) -> (r: Option<usize>)
    requires
        rules.wf(),
    ensures
        match r {
            Some(i) => i < rules.role_rules@.len() && rules.role_rules@[i as int].0 == role
                && rules.lookup(role) == Some(rules.role_rules@[i as int].1.view_perm()),
            None => rules.lookup(role) is None,
        },
{
    let mut i: usize = 0;
    while i < rules.role_rules.len()
        invariant
            rules.wf(),
            i <= rules.role_rules@.len(),
            forall|j: int| 0 <= j < i ==> #[trigger] rules.role_rules@[j].0 != role,
        decreases rules.role_rules@.len() - i,
    {
        if rules.role_rules[i].0 == role {
            proof {
                assert(rules.role_rules@[i as int].0 == role);
                let k = choose|k: int|
                    0 <= k < rules.role_rules@.len() && #[trigger] rules.role_rules@[k].0 == role;
                if k != i {
                    if k < i {
                        assert(rules.role_rules@[k].0 != role);
                    } else {
                        assert(rules.role_rules@[i as int].0 != rules.role_rules@[k].0);
                    }
                }
            }
            return Some(i);
        }
        i = i + 1;
    }
    None
}

/// The entry of the role named by `role_str`; `None` when the text names no
/// role or the table has no entry for it.
pub fn get_perms<'a>(role_str: &str, role_rules: &'a RoleRules) -> (r: Option<&'a RolePermission>)
    requires
        role_rules.wf(),
    ensures
        match spec_string_to_role(role_str@) {
            None => r is None,
            Some(role) => match role_rules.lookup(role) {
                None => r is None,
                Some(p) => r is Some && r->0.view_perm() == p,
            },
        },
{
    if let Some(role) = string_to_role(role_str) {
        match find_role(role_rules, role) {
            Some(i) => {
                return Some(&role_rules.role_rules[i].1);
            },
            None => {
                return None;
            },
        }
    }
    None
}

/// The weight of `role_str` in the table, if it has an entry.
pub fn get_weight(role_str: &Role, role_rules: &RoleRules) -> (r: Option<u8>)
    requires
        role_rules.wf(),
    ensures
        match role_rules.lookup(*role_str) {
            None => r is None,
            Some(p) => r == Some(p.weight),
        },
{
    match find_role(role_rules, *role_str) {
        Some(i) => Some(role_rules.role_rules[i].1.weight),
        None => None,
    }
}

/// Whether `perms` grants `action`.
pub fn has_permission(perms: &RolePermission, action: Permission) -> (r: bool)
    ensures
        r == perms.permissions@.contains(action),
{
    let mut i: usize = 0;
    while i < perms.permissions.len()
        invariant
            i <= perms.permissions@.len(),
            forall|j: int| 0 <= j < i ==> #[trigger] perms.permissions@[j] != action,
        decreases perms.permissions@.len() - i,
    {
        if perms.permissions[i] == action {
            assert(perms.permissions@[i as int] == action);
            return true;
        }
        i = i + 1;
    }
    false
}

/// Every role in the standard table outranks the roles below it: weights grow
/// strictly from Guest to Owner.
pub proof fn lemma_standard_weights_strictly_increase()
    ensures
        standard_weight(Role::Guest) < standard_weight(Role::Member),
        standard_weight(Role::Member) < standard_weight(Role::Contributor),
        standard_weight(Role::Contributor) < standard_weight(Role::Manager),
        standard_weight(Role::Manager) < standard_weight(Role::Owner),
        forall|a: Role, b: Role| standard_weight(a) == standard_weight(b) ==> a == b,
{
}

/// In the standard table a role holds every permission of every role of lower
/// or equal weight.
pub proof fn lemma_standard_permissions_monotone(a: Role, b: Role, p: Permission)
    requires
        standard_weight(a) <= standard_weight(b),
        standard_permissions(a).contains(p),
    ensures
        standard_permissions(b).contains(p),
{
    let sa = standard_permissions(a);
    let sb = standard_permissions(b);
    let i = choose|i: int| 0 <= i < sa.len() && sa[i] == p;
    let owner = standard_permissions(Role::Owner);
    let manager = standard_permissions(Role::Manager);
    match p {
        Permission::View => { assert(sb[0] == p); },
        Permission::Comment => {
            match b {
                Role::Member => assert(sb[1] == p),
                Role::Guest => {},
                _ => assert(sb[2] == p),
            }
        },
        Permission::AddAlert => { assert(sb[1] == p); },
        Permission::Delete => { assert(sb[3] == p); },
        Permission::Invite => { assert(owner[4] == p); },
        Permission::RemoveUser => {
            match b {
                Role::Owner => assert(owner[5] == p),
                _ => assert(manager[4] == p),
            }
        },
        Permission::Update => {
            match b {
                Role::Owner => assert(owner[6] == p),
                _ => assert(manager[5] == p),
            }
        },
    }
}

/// Role names are distinct and each name reads back as its role.
pub proof fn lemma_role_name_roundtrip(r: Role)
    ensures
        spec_string_to_role(role_name(r)) == Some(r),
{
    assert(role_name(Role::Guest) != role_name(Role::Member)) by {
        assert(role_name(Role::Guest).len() != role_name(Role::Member).len());
    }
    assert(role_name(Role::Guest) != role_name(Role::Contributor)) by {
        assert(role_name(Role::Guest).len() != role_name(Role::Contributor).len());
    }
    assert(role_name(Role::Guest) != role_name(Role::Manager)) by {
        assert(role_name(Role::Guest).len() != role_name(Role::Manager).len());
    }
    assert(role_name(Role::Guest) != role_name(Role::Owner)) by {
        assert(role_name(Role::Guest)[0] != role_name(Role::Owner)[0]);
    }
    assert(role_name(Role::Member) != role_name(Role::Contributor)) by {
        assert(role_name(Role::Member).len() != role_name(Role::Contributor).len());
    }
    assert(role_name(Role::Member) != role_name(Role::Manager)) by {
        assert(role_name(Role::Member).len() != role_name(Role::Manager).len());
    }
    assert(role_name(Role::Member) != role_name(Role::Owner)) by {
        assert(role_name(Role::Member).len() != role_name(Role::Owner).len());
    }
    assert(role_name(Role::Contributor) != role_name(Role::Manager)) by {
        assert(role_name(Role::Contributor).len() != role_name(Role::Manager).len());
    }
    assert(role_name(Role::Contributor) != role_name(Role::Owner)) by {
        assert(role_name(Role::Contributor).len() != role_name(Role::Owner).len());
    }
    assert(role_name(Role::Manager) != role_name(Role::Owner)) by {
        assert(role_name(Role::Manager).len() != role_name(Role::Owner).len());
    }
}

}
