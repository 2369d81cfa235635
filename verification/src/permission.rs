use vstd::prelude::*;

use crate::config::{copy_payments, require_caller_self, CallContext, Payment};
use crate::governance::storage::set_with;
use crate::EntityContract;
use crate::errors::EntityError;
use crate::store::{bytes_eq, copy_bytes, first_index_of, lemma_swap_remove_views, set_contains, set_insert, set_position, set_swap_remove, swap_removed, views, copy_bytes_list, Store};

verus! {

/// The name of the built-in leader role: `leader`.
pub open spec fn leader_role() -> Seq<u8> {
    seq![108u8, 101, 97, 100, 101, 114]
}

pub fn role_builtin_leader() -> (name: Vec<u8>)
    ensures
        name@ == leader_role(),
{
    let name = vec![108u8, 101, 97, 100, 101, 114];
    assert(name@ =~= leader_role());
    name
}

/// The name of the built-in developer role: `developer`.
pub open spec fn developer_role() -> Seq<u8> {
    seq![100u8, 101, 118, 101, 108, 111, 112, 101, 114]
}

pub fn role_builtin_developer() -> (name: Vec<u8>)
    ensures
        name@ == developer_role(),
{
    let name = vec![100u8, 101, 118, 101, 108, 111, 112, 101, 114];
    assert(name@ =~= developer_role());
    name
}

/// What a permission allows: a call to `destination` (any destination when
/// it is the zero address) at `endpoint` (any endpoint when empty), with at
/// most `value` EGLD (any value when zero), arguments that begin with
/// `arguments`, and token payments bounded by `payments`.
pub struct PermissionDetails {
    pub value: u128,
    pub destination: Vec<u8>,
    pub endpoint: Vec<u8>,
    pub arguments: Vec<Vec<u8>>,
    pub payments: Vec<Payment>,
}

pub struct PermissionDetailsView {
    pub value: u128,
    pub destination: Seq<u8>,
    pub endpoint: Seq<u8>,
    pub arguments: Seq<Seq<u8>>,
    pub payments: Seq<(Seq<u8>, u64, u128)>,
}

impl View for PermissionDetails {
    type V = PermissionDetailsView;

    open spec fn view(&self) -> PermissionDetailsView {
        PermissionDetailsView {
            value: self.value,
            destination: self.destination@,
            endpoint: self.endpoint@,
            arguments: views(self.arguments@),
            payments: views(self.payments@),
        }
    }
}

impl PermissionDetails {
    pub fn copy(&self) -> (copy: PermissionDetails)
        ensures
            copy@ == self@,
    {
        PermissionDetails {
            value: self.value,
            destination: copy_bytes(&self.destination),
            endpoint: copy_bytes(&self.endpoint),
            arguments: copy_bytes_list(&self.arguments),
            payments: copy_payments(&self.payments),
        }
    }
}

/// How the members of a role decide on a proposal that uses a permission.
pub struct Policy {
    pub method: PolicyMethod,
    pub quorum: u128,
    pub voting_period_minutes: usize,
}

/// The voting methods a policy can require before a permission may be used.
#[derive(Clone, Copy, PartialEq, Eq, Debug, Structural)]
pub enum PolicyMethod {
    Weight,
    One,
    All,
    Quorum,
}

pub open spec fn policy_method_name(method: PolicyMethod) -> Seq<u8> {
    match method {
        PolicyMethod::Weight => seq![119u8, 101, 105, 103, 104, 116],
        PolicyMethod::One => seq![111u8, 110, 101],
        PolicyMethod::All => seq![97u8, 108, 108],
        PolicyMethod::Quorum => seq![113u8, 117, 111, 114, 117, 109],
    }
}

impl PolicyMethod {
    /// The name under which the method is reported by the policy views.
    pub fn to_name(&self) -> (name: Vec<u8>)
        ensures
            name@ == policy_method_name(*self),
    {
        let name = match self {
            PolicyMethod::Weight => vec![119u8, 101, 105, 103, 104, 116],
            PolicyMethod::One => vec![111u8, 110, 101],
            PolicyMethod::All => vec![97u8, 108, 108],
            PolicyMethod::Quorum => vec![113u8, 117, 111, 114, 117, 109],
        };
        assert(name@ =~= policy_method_name(*self));
        name
    }
}

impl Policy {
    pub fn copy(&self) -> (copy: Policy)
        ensures
            copy == *self,
    {
        Policy { method: self.method, quorum: self.quorum, voting_period_minutes: self.voting_period_minutes }
    }
}

/// Whether a user's set of roles holds `role` (1 or 0).
pub open spec fn holds(roles: Seq<Seq<u8>>, role: Seq<u8>) -> nat {
    if roles.contains(role) {
        1
    } else {
        0
    }
}

/// The number of users whose role sets hold `role`.
pub open spec fn holders(user_roles: Seq<Seq<Seq<u8>>>, role: Seq<u8>) -> nat
    decreases user_roles.len(),
{
    if user_roles.len() == 0 {
        0
    } else {
        holders(user_roles.drop_last(), role) + holds(user_roles.last(), role)
    }
}

pub proof fn lemma_holders_update(
    user_roles: Seq<Seq<Seq<u8>>>,
    i: int,
    x: Seq<Seq<u8>>,
    role: Seq<u8>,
)
    requires
        0 <= i < user_roles.len(),
    ensures
        holders(user_roles.update(i, x), role) + holds(user_roles[i], role) == holders(
            user_roles,
            role,
        ) + holds(x, role),
    decreases user_roles.len(),
{
    let u = user_roles.update(i, x);
    if i == user_roles.len() - 1 {
        assert(u.drop_last() =~= user_roles.drop_last());
    } else {
        lemma_holders_update(user_roles.drop_last(), i, x, role);
        assert(u.drop_last() =~= user_roles.drop_last().update(i, x));
    }
}

pub proof fn lemma_holders_push(user_roles: Seq<Seq<Seq<u8>>>, x: Seq<Seq<u8>>, role: Seq<u8>)
    ensures
        holders(user_roles.push(x), role) == holders(user_roles, role) + holds(x, role),
{
    assert(user_roles.push(x).drop_last() =~= user_roles);
}

pub proof fn lemma_holders_bound(user_roles: Seq<Seq<Seq<u8>>>, role: Seq<u8>)
    ensures
        holders(user_roles, role) <= user_roles.len(),
    decreases user_roles.len(),
{
    if user_roles.len() > 0 {
        lemma_holders_bound(user_roles.drop_last(), role);
    }
}

pub proof fn lemma_holders_same_membership(
    a: Seq<Seq<Seq<u8>>>,
    b: Seq<Seq<Seq<u8>>>,
    role: Seq<u8>,
)
    requires
        a.len() == b.len(),
        forall|i: int| 0 <= i < a.len() ==> (a[i].contains(role) <==> b[i].contains(role)),
    ensures
        holders(a, role) == holders(b, role),
    decreases a.len(),
{
    if a.len() > 0 {
        lemma_holders_same_membership(a.drop_last(), b.drop_last(), role);
    }
}

pub proof fn lemma_holders_none(a: Seq<Seq<Seq<u8>>>, role: Seq<u8>)
    requires
        forall|i: int| 0 <= i < a.len() ==> !a[i].contains(role),
    ensures
        holders(a, role) == 0,
    decreases a.len(),
{
    if a.len() > 0 {
        lemma_holders_none(a.drop_last(), role);
    }
}

/// A sequence that holds `x` has a first position of `x`.
pub proof fn lemma_min_index<A>(s: Seq<A>, x: A, q: int)
    requires
        0 <= q < s.len(),
        s[q] == x,
    ensures
        exists|m: int| 0 <= m < s.len() && s[m] == x && forall|z: int| 0 <= z < m ==> s[z] != x,
    decreases q,
{
    if exists|z: int| 0 <= z < q && s[z] == x {
        let z = choose|z: int| 0 <= z < q && s[z] == x;
        lemma_min_index(s, x, z);
    } else {
        assert(forall|z: int| 0 <= z < q ==> s[z] != x);
    }
}

pub proof fn lemma_first_index_contained<A>(s: Seq<A>, x: A)
    requires
        s.contains(x),
    ensures
        0 <= first_index_of(s, x) < s.len(),
        s[first_index_of(s, x)] == x,
        forall|z: int| 0 <= z < first_index_of(s, x) ==> s[z] != x,
{
    let q = choose|q: int| 0 <= q < s.len() && s[q] == x;
    lemma_min_index(s, x, q);
}

/// Removing an element from a sequence without duplicates the way the
/// unordered sets do keeps every other element and drops that one.
pub proof fn lemma_swap_removed_seq<A>(s: Seq<A>, x: A)
    requires
        s.no_duplicates(),
    ensures
        swap_removed(s, x).no_duplicates(),
        forall|y: A| #[trigger] swap_removed(s, x).contains(y) <==> (s.contains(y) && y != x),
{
    if s.contains(x) {
        lemma_first_index_contained(s, x);
        let k = first_index_of(s, x);
        let r = s.update(k, s.last()).drop_last();
        let n = s.len();
        assert forall|a: int| 0 <= a < r.len() implies (a == k ==> r[a] == s[n - 1]) && (a != k
            ==> r[a] == s[a]) by {}
        assert(r.no_duplicates()) by {
            assert forall|a: int, b: int| 0 <= a < r.len() && 0 <= b < r.len() && a != b implies r[a]
                != r[b] by {
                let a2 = if a == k { n - 1 } else { a };
                let b2 = if b == k { n - 1 } else { b };
                assert(s[a2] != s[b2]);
            }
        }
        assert forall|y: A| r.contains(y) <==> (s.contains(y) && y != x) by {
            if r.contains(y) {
                let a = choose|a: int| 0 <= a < r.len() && r[a] == y;
                let a2 = if a == k { n - 1 } else { a };
                assert(s[a2] == y);
                assert(a2 != k);
                assert(s[a2] != s[k]);
            }
            if s.contains(y) && y != x {
                let b = choose|b: int| 0 <= b < s.len() && s[b] == y;
                assert(b != k);
                if b == n - 1 {
                    assert(r[k] == y);
                } else {
                    assert(r[b] == y);
                }
            }
        }
    }
}

/// Users, roles, permissions and policies: the storage of the permission
/// module. A user's id is its position in `users` plus one; `user_roles`
/// holds the role set of each user at the same position.
pub struct Members {
    pub users: Vec<Vec<u8>>,
    pub user_roles: Vec<Vec<Vec<u8>>>,
    pub roles: Vec<Vec<u8>>,
    pub roles_member_amount: Store<Vec<u8>, usize>,
    pub permissions: Vec<Vec<u8>>,
    pub permission_details: Store<Vec<u8>, PermissionDetails>,
    pub policies: Store<Vec<u8>, Store<Vec<u8>, Policy>>,
}

impl Members {
    pub open spec fn users_view(&self) -> Seq<Seq<u8>> {
        views(self.users@)
    }

    pub open spec fn user_roles_view(&self) -> Seq<Seq<Seq<u8>>> {
        Seq::new(self.user_roles@.len(), |i: int| views(self.user_roles@[i]@))
    }

    /// The stored member amount of a role (zero when none is stored).
    pub open spec fn member_amount(&self, role: Seq<u8>) -> nat {
        if self.roles_member_amount.map().contains_key(role) {
            self.roles_member_amount.map()[role] as nat
        } else {
            0
        }
    }

    /// The id of the user with `address`, or 0 for an unknown address.
    pub open spec fn user_id(&self, address: Seq<u8>) -> nat {
        if self.users_view().contains(address) {
            (self.users_view().index_of(address) + 1) as nat
        } else {
            0
        }
    }

    /// The roles of the user with id `id` (none for id 0 or an unknown id).
    pub open spec fn roles_of_id(&self, id: int) -> Seq<Seq<u8>> {
        if 1 <= id <= self.user_roles@.len() {
            self.user_roles_view()[id - 1]
        } else {
            Seq::empty()
        }
    }

    pub open spec fn roles_of(&self, address: Seq<u8>) -> Seq<Seq<u8>> {
        self.roles_of_id(self.user_id(address) as int)
    }

    pub open spec fn role_exists(&self, role: Seq<u8>) -> bool {
        views(self.roles@).contains(role)
    }

    pub open spec fn permission_exists(&self, permission: Seq<u8>) -> bool {
        views(self.permissions@).contains(permission)
    }

    /// The policy that `role` has for `permission`, if any.
    pub open spec fn policy_of(&self, role: Seq<u8>, permission: Seq<u8>) -> Option<Policy> {
        if self.policies.map().contains_key(role) && self.policies.map()[role].map().contains_key(
            permission,
        ) {
            Some(self.policies.map()[role].map()[permission])
        } else {
            None
        }
    }

    pub open spec fn wf(&self) -> bool {
        &&& self.users@.len() == self.user_roles@.len()
        &&& self.users@.len() + 1 < usize::MAX
        &&& self.users_view().no_duplicates()
        &&& forall|i: int|
            0 <= i < self.user_roles@.len() ==> #[trigger] views(
                self.user_roles@[i]@,
            ).no_duplicates()
        &&& views(self.roles@).no_duplicates()
        &&& views(self.permissions@).no_duplicates()
        &&& self.roles_member_amount.wf()
        &&& self.permission_details.wf()
        &&& self.policies.wf()
        &&& forall|r: Seq<u8>| #[trigger]
            self.policies.map().contains_key(r) ==> self.policies.map()[r].wf()
        &&& forall|p: Seq<u8>| #[trigger]
            views(self.permissions@).contains(p) ==> self.permission_details.map().contains_key(p)
        &&& forall|r: Seq<u8>, p: Seq<u8>|
            (#[trigger] self.policy_of(r, p)) is Some ==> self.permission_exists(p)
        &&& forall|r: Seq<u8>| #[trigger]
            self.member_amount(r) == holders(self.user_roles_view(), r)
    }

    /// Room for one more user id.
    pub open spec fn has_room_for_user(&self) -> bool {
        self.users@.len() + 2 < usize::MAX
    }

    pub fn new() -> (members: Self)
        ensures
            members.wf(),
            members.users@.len() == 0,
            members.user_roles@.len() == 0,
            members.roles@.len() == 0,
            members.permissions@.len() == 0,
            members.roles_member_amount.map() == Map::<Seq<u8>, usize>::empty(),
            members.roles_member_amount.entries@.len() == 0,
            members.permission_details.entries@.len() == 0,
            members.policies.entries@.len() == 0,
            views(members.roles@) == Seq::<Seq<u8>>::empty(),
            views(members.permissions@) == Seq::<Seq<u8>>::empty(),
            members.policies.map() == Map::<Seq<u8>, Store<Vec<u8>, Policy>>::empty(),
            members.permission_details.map() == Map::<Seq<u8>, PermissionDetails>::empty(),
    {
        let m = Members {
            users: Vec::new(),
            user_roles: Vec::new(),
            roles: Vec::new(),
            roles_member_amount: Store::new(),
            permissions: Vec::new(),
            permission_details: Store::new(),
            policies: Store::new(),
        };
        assert(views(m.roles@) =~= Seq::<Seq<u8>>::empty());
        assert(views(m.permissions@) =~= Seq::<Seq<u8>>::empty());
        assert(m.users_view() =~= Seq::<Seq<u8>>::empty());
        assert forall|r: Seq<u8>| #[trigger] m.member_amount(r) == holders(m.user_roles_view(), r) by {
            assert(m.user_roles_view().len() == 0);
        }
        m
    }

    /// Makes `leader` the only member of a new leader role.
    pub fn init_permission_module(&mut self, leader: &Vec<u8>)
        requires
            old(self).wf(),
            old(self).users@.len() == 0,
            views(old(self).roles@) == Seq::<Seq<u8>>::empty(),
        ensures
            final(self).wf(),
            views(final(self).roles@) == seq![leader_role()],
            final(self).users_view() == seq![leader@],
            final(self).roles_of(leader@) == seq![leader_role()],
            final(self).member_amount(leader_role()) == 1,
            final(self).permissions == old(self).permissions,
            final(self).permission_details == old(self).permission_details,
            final(self).policies == old(self).policies,
    {
        let _ = self.create_role(role_builtin_leader());
        proof {
            assert(self.users_view() =~= Seq::<Seq<u8>>::empty());
            assert(views(self.roles@) =~= seq![leader_role()]);
            assert(views(self.roles@)[0] == leader_role());
        }
        let _ = self.assign_role(leader, &role_builtin_leader());
        proof {
            assert(self.users_view() =~= seq![leader@]);
            assert(self.roles_of(leader@) =~= seq![leader_role()]);
            self.lemma_user_id(leader@);
            assert(self.user_id(leader@) == 1);
            assert(self.user_roles_view().len() == 1);
            assert(self.user_roles_view()[0] == seq![leader_role()]);
            assert(self.user_roles_view().drop_last() =~= Seq::<Seq<Seq<u8>>>::empty());
            assert(seq![leader_role()].contains(leader_role())) by {
                assert(seq![leader_role()][0] == leader_role());
            }
            assert(holds(seq![leader_role()], leader_role()) == 1);
            let ur = self.user_roles_view();
            assert(holders(ur.drop_last(), leader_role()) == 0);
            assert(ur.last() == seq![leader_role()]);
            assert(holders(ur, leader_role()) == holders(ur.drop_last(), leader_role())
                + holds(ur.last(), leader_role()));
        }
    }

    /// The id of the user with `address`, or 0 when the address is unknown.
    pub fn get_user_id(&self, address: &Vec<u8>) -> (id: usize)
        requires
            self.wf(),
        ensures
            id == self.user_id(address@),
    {
        match set_position(&self.users, address) {
            Some(i) => {
                proof {
                    let v = self.users_view();
                    assert(v[i as int] == address@);
                    assert(v.index_of(address@) == i) by {
                        let j = v.index_of(address@);
                        assert(0 <= j < v.len() && v[j] == address@);
                        if j != i {
                            assert(v[j] != v[i as int]);
                        }
                    }
                }
                i + 1
            },
            None => 0,
        }
    }

    /// The id of the user with `address`, registering the address when it is
    /// unknown.
    pub fn get_or_create_user(&mut self, address: &Vec<u8>) -> (id: usize)
        requires
            old(self).wf(),
            old(self).has_room_for_user(),
        ensures
            final(self).wf(),
            id >= 1,
            id == final(self).user_id(address@),
            old(self).users_view().contains(address@) ==> *final(self) == *old(self),
            !old(self).users_view().contains(address@) ==> {
                &&& final(self).users_view() == old(self).users_view().push(address@)
                &&& final(self).user_roles_view() == old(self).user_roles_view().push(Seq::empty())
                &&& final(self).roles == old(self).roles
                &&& final(self).roles_member_amount == old(self).roles_member_amount
                &&& final(self).permissions == old(self).permissions
                &&& final(self).permission_details == old(self).permission_details
                &&& final(self).policies == old(self).policies
            },
            forall|a: Seq<u8>| #[trigger]
                old(self).users_view().contains(a) ==> final(self).user_id(a) == old(self).user_id(
                    a,
                ),
            forall|a: Seq<u8>| #[trigger] final(self).roles_of(a) == old(self).roles_of(a),
    {
        let id = self.get_user_id(address);
        if id != 0 {
            return id;
        }
        let ghost old_self = *self;
        let ghost old_users = self.users_view();
        let ghost old_ur = self.user_roles_view();
        self.users.push(copy_bytes(address));
        self.user_roles.push(Vec::new());
        let new_id = self.users.len();
        proof {
            assert(self.users_view() =~= old_users.push(address@));
            assert(self.user_roles@.len() == old_ur.len() + 1);
            assert forall|i: int| 0 <= i < old_ur.len() implies self.user_roles@[i] == old_self.user_roles@[i] by {}
            assert(self.user_roles@[old_ur.len() as int]@.len() == 0);
            assert(views(self.user_roles@[old_ur.len() as int]@) =~= Seq::<Seq<u8>>::empty());
            assert(self.user_roles_view() =~= old_ur.push(Seq::empty()));
            assert(self.users_view().no_duplicates()) by {
                assert forall|a: int, b: int|
                    0 <= a < self.users_view().len() && 0 <= b < self.users_view().len() && a
                        != b implies self.users_view()[a] != self.users_view()[b] by {
                    if a < old_users.len() && b < old_users.len() {
                    } else if a < old_users.len() {
                        assert(old_users[a] != address@);
                    } else {
                        assert(old_users[b] != address@);
                    }
                }
            }
            assert forall|i: int| 0 <= i < self.user_roles@.len() implies #[trigger] views(
                self.user_roles@[i]@,
            ).no_duplicates() by {
                if i < old_ur.len() {
                    assert(self.user_roles@[i] == old_self.user_roles@[i]);
                } else {
                    assert(self.user_roles@[i]@.len() == 0);
                    assert(views(self.user_roles@[i]@) =~= Seq::<Seq<u8>>::empty());
                }
            }
            assert forall|r: Seq<u8>| #[trigger]
                self.member_amount(r) == holders(self.user_roles_view(), r) by {
                lemma_holders_push(old_ur, Seq::empty(), r);
                assert(old_self.member_amount(r) == holders(old_ur, r));
            }
            let v = self.users_view();
            assert(v[new_id - 1] == address@);
            assert(v.index_of(address@) == new_id - 1) by {
                let j = v.index_of(address@);
                assert(0 <= j < v.len() && v[j] == address@);
                if j != new_id - 1 {
                    assert(v[j] != v[new_id - 1]);
                }
            }
            assert forall|a: Seq<u8>| #[trigger]
                old_users.contains(a) implies self.user_id(a) == old_self.user_id(a) by {
                let j = old_users.index_of(a);
                assert(0 <= j < old_users.len() && old_users[j] == a);
                assert(v[j] == a);
                let k = v.index_of(a);
                assert(0 <= k < v.len() && v[k] == a);
                if k != j {
                    assert(v[k] != v[j]);
                }
            }
            assert forall|a: Seq<u8>| #[trigger] self.roles_of(a) == old_self.roles_of(a) by {
                if old_users.contains(a) {
                    let j = old_users.index_of(a);
                    assert(0 <= j < old_users.len() && old_users[j] == a);
                } else if a == address@ {
                } else {
                    assert(!v.contains(a)) by {
                        if v.contains(a) {
                            let k = choose|k: int| 0 <= k < v.len() && v[k] == a;
                            if k < old_users.len() {
                                assert(old_users[k] == a);
                            }
                        }
                    }
                }
            }
            Members::lemma_policies_kept(old_self, *self);
        }
        new_id
    }

    /// The roles of the user with id `id`.
    pub fn roles_of_user(&self, id: usize) -> (roles: &Vec<Vec<u8>>)
        requires
            self.wf(),
            1 <= id <= self.users@.len(),
        ensures
            views(roles@) == self.roles_of_id(id as int),
    {
        &self.user_roles[id - 1]
    }

    /// The roles of the user with `address` (none for an unknown address).
    pub fn get_user_roles(&self, address: &Vec<u8>) -> (roles: Vec<Vec<u8>>)
        requires
            self.wf(),
        ensures
            views(roles@) == self.roles_of(address@),
    {
        let user_id = self.get_user_id(address);
        if user_id == 0 {
            let roles: Vec<Vec<u8>> = Vec::new();
            assert(views(roles@) =~= self.roles_of(address@));
            return roles;
        }
        copy_bytes_list(self.roles_of_user(user_id))
    }

    /// The address of user `user_id` (empty for an id that names no user).
    pub open spec fn address_of(&self, user_id: usize) -> Seq<u8> {
        if 1 <= user_id <= self.users@.len() {
            self.users_view()[user_id - 1]
        } else {
            Seq::empty()
        }
    }

    pub fn get_user_address_unchecked(&self, user_id: usize) -> (address: Vec<u8>)
        ensures
            address@ == self.address_of(user_id),
    {
        if user_id >= 1 && user_id <= self.users.len() {
            proof {
                assert(self.users_view()[user_id - 1] == self.users@[user_id - 1]@);
            }
            copy_bytes(&self.users[user_id - 1])
        } else {
            Vec::new()
        }
    }

    pub fn has_role(&self, address: &Vec<u8>, role_name: &Vec<u8>) -> (has: bool)
        requires
            self.wf(),
        ensures
            has == self.roles_of(address@).contains(role_name@),
    {
        let user_id = self.get_user_id(address);
        if user_id == 0 {
            return false;
        }
        set_contains(self.roles_of_user(user_id), role_name)
    }

    pub fn has_leader_role(&self, address: &Vec<u8>) -> (has: bool)
        requires
            self.wf(),
        ensures
            has == self.roles_of(address@).contains(leader_role()),
    {
        self.has_role(address, &role_builtin_leader())
    }

    pub fn require_caller_has_leader_role(&self, ctx: &CallContext) -> (result: Result<(), EntityError>)
        requires
            self.wf(),
        ensures
            result is Ok <==> self.roles_of(ctx.caller@).contains(leader_role()),
            result is Err ==> result == Err::<(), EntityError>(EntityError::CallerMustBeLeader),
    {
        if self.has_leader_role(&ctx.caller) {
            Ok(())
        } else {
            Err(EntityError::CallerMustBeLeader)
        }
    }

    pub fn member_amount_of(&self, role_name: &Vec<u8>) -> (amount: usize)
        requires
            self.roles_member_amount.wf(),
        ensures
            amount == self.member_amount(role_name@),
    {
        match self.roles_member_amount.get(role_name) {
            Some(a) => *a,
            None => 0,
        }
    }

    /// Whether no user holds the leader role.
    pub fn is_leaderless(&self) -> (leaderless: bool)
        requires
            self.wf(),
        ensures
            leaderless == (self.member_amount(leader_role()) == 0),
    {
        self.member_amount_of(&role_builtin_leader()) == 0
    }

    pub fn create_role(&mut self, role_name: Vec<u8>) -> (result: Result<(), EntityError>)
        requires
            old(self).wf(),
        ensures
            final(self).wf(),
            old(self).role_exists(role_name@) ==> result == Err::<(), EntityError>(
                EntityError::RoleAlreadyExists,
            ) && *final(self) == *old(self),
            !old(self).role_exists(role_name@) ==> result is Ok && *final(self) == (Members {
                roles: final(self).roles,
                ..*old(self)
            }) && views(final(self).roles@) == views(old(self).roles@).push(role_name@),
    {
        let ghost before = views(self.roles@);
        if set_insert(&mut self.roles, role_name) {
            proof {
                Members::lemma_policies_kept(*old(self), *self);
                assert forall|r: Seq<u8>| #[trigger]
                    self.member_amount(r) == holders(self.user_roles_view(), r) by {
                    assert(old(self).member_amount(r) == holders(old(self).user_roles_view(), r));
                }
                assert(views(self.roles@).no_duplicates()) by {
                    assert forall|a: int, b: int|
                        0 <= a < views(self.roles@).len() && 0 <= b < views(self.roles@).len()
                            && a != b implies views(self.roles@)[a] != views(self.roles@)[b] by {
                        if a < before.len() && b < before.len() {
                            assert(before[a] != before[b]);
                        } else if a < before.len() {
                            assert(before[a] == views(self.roles@)[a]);
                        } else {
                            assert(before[b] == views(self.roles@)[b]);
                        }
                    }
                }
            }
            Ok(())
        } else {
            Err(EntityError::RoleAlreadyExists)
        }
    }

    pub proof fn lemma_roles_of_no_dup(&self, a: Seq<u8>)
        requires
            self.wf(),
        ensures
            self.roles_of(a).no_duplicates(),
    {
        let id = self.user_id(a) as int;
        if 1 <= id <= self.user_roles@.len() {
            assert(views(self.user_roles@[id - 1]@).no_duplicates());
        }
    }

    pub proof fn lemma_user_id(&self, a: Seq<u8>)
        requires
            self.wf(),
        ensures
            self.users_view().contains(a) ==> 1 <= self.user_id(a) <= self.users@.len()
                && self.users_view()[self.user_id(a) - 1] == a,
            !self.users_view().contains(a) ==> self.user_id(a) == 0,
    {
        if self.users_view().contains(a) {
            let j = self.users_view().index_of(a);
            assert(0 <= j < self.users_view().len() && self.users_view()[j] == a);
        }
    }

    /// The member amounts match the role holders again after one user's role
    /// set changed only in `role` and only the amount of `role` was updated.
    pub proof fn lemma_law_after_user_change(
        old_m: Members,
        new_m: Members,
        idx: int,
        new_set: Seq<Seq<u8>>,
        role: Seq<u8>,
    )
        requires
            forall|r: Seq<u8>| #[trigger]
                old_m.member_amount(r) == holders(old_m.user_roles_view(), r),
            0 <= idx < old_m.user_roles_view().len(),
            new_m.user_roles_view() == old_m.user_roles_view().update(idx, new_set),
            forall|r: Seq<u8>|
                r != role ==> (new_set.contains(r) <==> old_m.user_roles_view()[idx].contains(r)),
            forall|r: Seq<u8>|
                r != role ==> #[trigger] new_m.member_amount(r) == old_m.member_amount(r),
            new_m.member_amount(role) + holds(old_m.user_roles_view()[idx], role)
                == old_m.member_amount(role) + holds(new_set, role),
        ensures
            forall|r: Seq<u8>| #[trigger]
                new_m.member_amount(r) == holders(new_m.user_roles_view(), r),
    {
        assert forall|r: Seq<u8>| #[trigger]
            new_m.member_amount(r) == holders(new_m.user_roles_view(), r) by {
            lemma_holders_update(old_m.user_roles_view(), idx, new_set, r);
            assert(old_m.member_amount(r) == holders(old_m.user_roles_view(), r));
        }
    }

    /// The policies still name registered permissions when the policies are
    /// unchanged and no permission was dropped.
    pub proof fn lemma_policies_kept(old_m: Members, new_m: Members)
        requires
            forall|r: Seq<u8>, p: Seq<u8>|
                (#[trigger] old_m.policy_of(r, p)) is Some ==> old_m.permission_exists(p),
            new_m.policies == old_m.policies,
            forall|p: Seq<u8>| old_m.permission_exists(p) ==> new_m.permission_exists(p),
        ensures
            forall|r: Seq<u8>, p: Seq<u8>|
                (#[trigger] new_m.policy_of(r, p)) is Some ==> new_m.permission_exists(p),
    {
        assert forall|r: Seq<u8>, p: Seq<u8>|
            (#[trigger] new_m.policy_of(r, p)) is Some implies new_m.permission_exists(p) by {
            assert(new_m.policy_of(r, p) == old_m.policy_of(r, p));
        }
    }

    /// Adds `role` to the role set of user `id`, keeping the member amount of
    /// the role in step; reports whether the user did not hold it before.
    fn add_role_to_user(&mut self, id: usize, role_name: &Vec<u8>) -> (added: bool)
        requires
            old(self).wf(),
            1 <= id <= old(self).users@.len(),
        ensures
            final(self).wf(),
            added == !old(self).roles_of_id(id as int).contains(role_name@),
            final(self).user_roles_view() == old(self).user_roles_view().update(
                id - 1,
                if added {
                    old(self).roles_of_id(id as int).push(role_name@)
                } else {
                    old(self).roles_of_id(id as int)
                },
            ),
            final(self).users == old(self).users,
            final(self).roles == old(self).roles,
            final(self).permissions == old(self).permissions,
            final(self).permission_details == old(self).permission_details,
            final(self).policies == old(self).policies,
            forall|r: Seq<u8>|
                r != role_name@ ==> #[trigger] final(self).member_amount(r) == old(
                    self,
                ).member_amount(r),
    {
        let ghost old_ur = self.user_roles_view();
        let idx = id - 1;
        let mut set = self.user_roles.remove(idx);
        let ghost before = views(set@);
        let added = set_insert(&mut set, copy_bytes(role_name));
        let ghost new_set = views(set@);
        self.user_roles.insert(idx, set);
        proof {
            assert(self.user_roles_view() =~= old_ur.update(idx as int, new_set)) by {
                assert forall|j: int| 0 <= j < old_ur.len() implies #[trigger] self.user_roles_view()[j]
                    == old_ur.update(idx as int, new_set)[j] by {
                    if j != idx {
                        assert(self.user_roles@[j] == old(self).user_roles@[j]);
                    }
                }
            }
            assert(before == old_ur[idx as int]);
            assert(views(old(self).user_roles@[idx as int]@).no_duplicates());
            if added {
                assert(new_set == before.push(role_name@));
                assert forall|r: Seq<u8>| r != role_name@ implies (new_set.contains(r)
                    <==> before.contains(r)) by {
                    if new_set.contains(r) {
                        let k = choose|k: int| 0 <= k < new_set.len() && new_set[k] == r;
                        assert(before[k] == r);
                    }
                    if before.contains(r) {
                        let k = choose|k: int| 0 <= k < before.len() && before[k] == r;
                        assert(new_set[k] == r);
                    }
                }
                assert(new_set[before.len() as int] == role_name@);
                assert(new_set.no_duplicates()) by {
                    assert forall|a: int, b: int|
                        0 <= a < new_set.len() && 0 <= b < new_set.len() && a != b implies new_set[a]
                        != new_set[b] by {
                        if a < before.len() && b < before.len() {
                            assert(before[a] != before[b]);
                        } else if a < before.len() {
                            assert(before[a] == new_set[a]);
                        } else {
                            assert(before[b] == new_set[b]);
                        }
                    }
                }
            } else {
                assert(new_set == before);
            }
            assert forall|i: int| 0 <= i < self.user_roles@.len() implies #[trigger] views(
                self.user_roles@[i]@,
            ).no_duplicates() by {
                if i != idx {
                    assert(self.user_roles@[i] == old(self).user_roles@[i]);
                }
            }
        }
        if added {
            let amount = self.member_amount_of(role_name);
            proof {
                lemma_holders_update(old_ur, idx as int, new_set, role_name@);
                lemma_holders_bound(self.user_roles_view(), role_name@);
                assert(old(self).member_amount(role_name@) == holders(old_ur, role_name@));
            }
            self.roles_member_amount.insert(copy_bytes(role_name), amount + 1);
        }
        proof {
            Members::lemma_law_after_user_change(
                *old(self),
                *self,
                idx as int,
                new_set,
                role_name@,
            );
            Members::lemma_policies_kept(*old(self), *self);
        }
        added
    }

    /// Removes `role` from the role set of user `id`, keeping the member
    /// amount of the role in step; reports whether the user held it.
    #[verifier::spinoff_prover]
    #[verifier::rlimit(80)]
    fn remove_role_from_user(&mut self, id: usize, role_name: &Vec<u8>) -> (removed: bool)
        requires
            old(self).wf(),
            1 <= id <= old(self).users@.len(),
        ensures
            final(self).wf(),
            removed == old(self).roles_of_id(id as int).contains(role_name@),
            final(self).user_roles_view() == old(self).user_roles_view().update(
                id - 1,
                swap_removed(old(self).roles_of_id(id as int), role_name@),
            ),
            final(self).users == old(self).users,
            final(self).roles == old(self).roles,
            final(self).permissions == old(self).permissions,
            final(self).permission_details == old(self).permission_details,
            final(self).policies == old(self).policies,
            forall|r: Seq<u8>|
                r != role_name@ ==> #[trigger] final(self).member_amount(r) == old(
                    self,
                ).member_amount(r),
            !removed ==> final(self).member_amount(role_name@) == old(self).member_amount(
                role_name@,
            ),
    {
        let ghost old_ur = self.user_roles_view();
        let idx = id - 1;
        let mut set = self.user_roles.remove(idx);
        let ghost before = views(set@);
        let removed = set_swap_remove(&mut set, role_name);
        let ghost new_set = views(set@);
        self.user_roles.insert(idx, set);
        proof {
            assert(before == old(self).roles_of_id(id as int));
            assert(self.user_roles_view() =~= old_ur.update(idx as int, new_set)) by {
                assert forall|j: int| 0 <= j < old_ur.len() implies #[trigger] self.user_roles_view()[j]
                    == old_ur.update(idx as int, new_set)[j] by {
                    if j != idx {
                        assert(self.user_roles@[j] == old(self).user_roles@[j]);
                    }
                }
            }
            assert(views(old(self).user_roles@[idx as int]@).no_duplicates());
            lemma_swap_removed_seq(before, role_name@);
            assert forall|i: int| 0 <= i < self.user_roles@.len() implies #[trigger] views(
                self.user_roles@[i]@,
            ).no_duplicates() by {
                if i != idx {
                    assert(self.user_roles@[i] == old(self).user_roles@[i]);
                }
            }
        }
        if removed {
            let amount = self.member_amount_of(role_name);
            proof {
                lemma_holders_update(old_ur, idx as int, new_set, role_name@);
                assert(old(self).member_amount(role_name@) == holders(old_ur, role_name@));
            }
            self.roles_member_amount.insert(copy_bytes(role_name), amount - 1);
        }
        proof {
            Members::lemma_law_after_user_change(
                *old(self),
                *self,
                idx as int,
                new_set,
                role_name@,
            );
            Members::lemma_policies_kept(*old(self), *self);
        }
        removed
    }

    /// Gives the user with `address` the role `role_name`, registering the
    /// address as a user when it is unknown.
    pub fn assign_role(&mut self, address: &Vec<u8>, role_name: &Vec<u8>) -> (result: Result<
        (),
        EntityError,
    >)
        requires
            old(self).wf(),
            old(self).has_room_for_user(),
        ensures
            final(self).wf(),
            !old(self).role_exists(role_name@) ==> result == Err::<(), EntityError>(
                EntityError::RoleDoesNotExist,
            ) && *final(self) == *old(self),
            old(self).role_exists(role_name@) ==> {
                &&& result is Ok
                &&& final(self).roles == old(self).roles
                &&& final(self).permissions == old(self).permissions
                &&& final(self).permission_details == old(self).permission_details
                &&& final(self).policies == old(self).policies
                &&& final(self).users_view() == if old(self).users_view().contains(address@) {
                    old(self).users_view()
                } else {
                    old(self).users_view().push(address@)
                }
                &&& final(self).roles_of(address@) == if old(self).roles_of(address@).contains(
                    role_name@,
                ) {
                    old(self).roles_of(address@)
                } else {
                    old(self).roles_of(address@).push(role_name@)
                }
                &&& forall|a: Seq<u8>|
                    a != address@ ==> #[trigger] final(self).roles_of(a) == old(self).roles_of(a)
            },
    {
        if !set_contains(&self.roles, role_name) {
            return Err(EntityError::RoleDoesNotExist);
        }
        let ghost start = *self;
        let user_id = self.get_or_create_user(address);
        let ghost mid = *self;
        let _added = self.add_role_to_user(user_id, role_name);
        proof {
            assert(mid.roles_of(address@) == start.roles_of(address@));
            mid.lemma_user_id(address@);
            assert(self.users == mid.users);
            assert forall|a: Seq<u8>| a != address@ implies #[trigger] self.roles_of(a)
                == start.roles_of(a) by {
                mid.lemma_user_id(a);
                assert(mid.roles_of(a) == start.roles_of(a));
                if mid.users_view().contains(a) {
                    assert(mid.user_id(a) != user_id);
                }
            }
        }
        Ok(())
    }

    /// Takes the role `role_name` from the user with `address`. When that
    /// would take the last leader, the leader role is removed as a whole,
    /// which needs a governance token or a plug to be configured.
    pub fn unassign_role(
        &mut self,
        address: &Vec<u8>,
        role_name: &Vec<u8>,
        is_plugged: bool,
        has_gov_token: bool,
    ) -> (result: Result<(), EntityError>)
        requires
            old(self).wf(),
            old(self).has_room_for_user(),
        ensures
            final(self).wf(),
            !old(self).role_exists(role_name@) ==> result == Err::<(), EntityError>(
                EntityError::RoleDoesNotExist,
            ) && *final(self) == *old(self),
            old(self).role_exists(role_name@) && role_name@ == leader_role() && old(
                self,
            ).member_amount(role_name@) == 1 && !is_plugged && !has_gov_token ==> result == Err::<
                (),
                EntityError,
            >(EntityError::LastLeader) && *final(self) == *old(self),
            old(self).role_exists(role_name@) && role_name@ == leader_role() && old(
                self,
            ).member_amount(role_name@) == 1 && (is_plugged || has_gov_token) ==> {
                &&& result is Ok
                &&& old(self).roles_of(address@).contains(role_name@) ==> {
                    &&& views(final(self).roles@) == swap_removed(views(old(self).roles@), role_name@)
                    &&& forall|a: Seq<u8>| #[trigger]
                        final(self).roles_of(a) == swap_removed(old(self).roles_of(a), role_name@)
                    &&& final(self).member_amount(role_name@) == 0
                }
                &&& !old(self).roles_of(address@).contains(role_name@) ==> {
                    &&& final(self).roles == old(self).roles
                    &&& forall|a: Seq<u8>| #[trigger] final(self).roles_of(a) == old(self).roles_of(a)
                    &&& final(self).member_amount(role_name@) == old(self).member_amount(role_name@)
                }
            },
            old(self).role_exists(role_name@) && !(role_name@ == leader_role() && old(
                self,
            ).member_amount(role_name@) == 1) ==> {
                &&& result is Ok
                &&& final(self).roles == old(self).roles
                &&& final(self).roles_of(address@) == swap_removed(
                    old(self).roles_of(address@),
                    role_name@,
                )
                &&& forall|a: Seq<u8>|
                    a != address@ ==> #[trigger] final(self).roles_of(a) == old(self).roles_of(a)
            },
            old(self).role_exists(role_name@) && result is Ok ==> {
                &&& final(self).permissions == old(self).permissions
                &&& final(self).permission_details == old(self).permission_details
                &&& final(self).policies == old(self).policies
                &&& final(self).users_view() == if old(self).users_view().contains(address@) {
                    old(self).users_view()
                } else {
                    old(self).users_view().push(address@)
                }
            },
    {
        if !set_contains(&self.roles, role_name) {
            return Err(EntityError::RoleDoesNotExist);
        }
        let leader_role_name = role_builtin_leader();
        let is_last_leader = bytes_eq(role_name, &leader_role_name) && self.member_amount_of(
            role_name,
        ) == 1;
        if is_last_leader && !is_plugged && !has_gov_token {
            return Err(EntityError::LastLeader);
        }
        let ghost start = *self;
        let holds = self.has_role(address, role_name);
        if is_last_leader && holds {
            let _ = self.remove_role(&leader_role_name);
        }
        let ghost after_remove = *self;
        let user_id = self.get_or_create_user(address);
        let ghost mid = *self;
        let _removed = self.remove_role_from_user(user_id, role_name);
        proof {
            mid.lemma_user_id(address@);
            assert(mid.roles_of(address@) == after_remove.roles_of(address@));
            assert forall|a: Seq<u8>| a != address@ implies #[trigger] self.roles_of(a)
                == mid.roles_of(a) by {
                mid.lemma_user_id(a);
                if mid.users_view().contains(a) {
                    assert(mid.user_id(a) != user_id);
                }
            }
            if !holds {
                assert(swap_removed(mid.roles_of(address@), role_name@) == mid.roles_of(address@));
            }
            if is_last_leader && holds {
                start.lemma_roles_of_no_dup(address@);
                lemma_swap_removed_seq(start.roles_of(address@), role_name@);
                assert(!after_remove.roles_of(address@).contains(role_name@));
                assert(swap_removed(mid.roles_of(address@), role_name@) == mid.roles_of(address@));
                assert forall|a: Seq<u8>| #[trigger]
                    self.roles_of(a) == swap_removed(start.roles_of(a), role_name@) by {
                    assert(after_remove.roles_of(a) == mid.roles_of(a));
                }
                assert(self.member_amount(role_name@) == mid.member_amount(role_name@));
            }
        }
        Ok(())
    }

    /// Removes a role, taking it from every user.
    pub fn remove_role(&mut self, role_name: &Vec<u8>) -> (result: Result<(), EntityError>)
        requires
            old(self).wf(),
        ensures
            final(self).wf(),
            !old(self).role_exists(role_name@) ==> result == Err::<(), EntityError>(
                EntityError::RoleDoesNotExist,
            ) && *final(self) == *old(self),
            old(self).role_exists(role_name@) ==> {
                &&& result is Ok
                &&& views(final(self).roles@) == swap_removed(views(old(self).roles@), role_name@)
                &&& final(self).users == old(self).users
                &&& final(self).user_roles_view().len() == old(self).user_roles_view().len()
                &&& forall|i: int|
                    0 <= i < old(self).user_roles_view().len() ==> (#[trigger] final(self).user_roles_view()[i]) == swap_removed(
                        old(self).user_roles_view()[i],
                        role_name@,
                    )
                &&& forall|a: Seq<u8>| #[trigger]
                    final(self).roles_of(a) == swap_removed(old(self).roles_of(a), role_name@)
                &&& final(self).member_amount(role_name@) == 0
                &&& final(self).permissions == old(self).permissions
                &&& final(self).permission_details == old(self).permission_details
                &&& final(self).policies == old(self).policies
            },
    {
        if !set_contains(&self.roles, role_name) {
            return Err(EntityError::RoleDoesNotExist);
        }
        let ghost start = *self;
        let ghost old_roles = views(self.roles@);
        let _ = set_swap_remove(&mut self.roles, role_name);
        proof {
            let k = first_index_of(old_roles, role_name@);
            lemma_swap_remove_views(start.roles@, k);
            assert(views(start.roles@.update(k, start.roles@.last()).drop_last()) =~= views(
                self.roles@,
            )) by {
                let raw = start.roles@;
                assert(exists|i: int|
                    0 <= i < raw.len() && raw[i]@ == role_name@ && self.roles@ == raw.update(
                        i,
                        raw.last(),
                    ).drop_last());
                let i = choose|i: int|
                    0 <= i < raw.len() && raw[i]@ == role_name@ && self.roles@ == raw.update(
                        i,
                        raw.last(),
                    ).drop_last();
                assert(views(raw)[i] == role_name@);
                if i != k {
                    assert(views(raw)[i] != views(raw)[k]);
                }
            }
            assert forall|r: Seq<u8>| #[trigger]
                self.member_amount(r) == holders(self.user_roles_view(), r) by {
                assert(start.member_amount(r) == holders(start.user_roles_view(), r));
            }
            Members::lemma_policies_kept(start, *self);
        }
        let count = self.users.len();
        let mut i: usize = 0;
        while i < count
            invariant
                self.wf(),
                count == self.users@.len(),
                i <= count,
                self.users == start.users,
                views(self.roles@) == swap_removed(views(start.roles@), role_name@),
                self.permissions == start.permissions,
                self.permission_details == start.permission_details,
                self.policies == start.policies,
                self.user_roles_view().len() == start.user_roles_view().len(),
                forall|j: int|
                    0 <= j < i ==> #[trigger] self.user_roles_view()[j] == swap_removed(
                        start.user_roles_view()[j],
                        role_name@,
                    ),
                forall|j: int|
                    i <= j < count ==> #[trigger] self.user_roles_view()[j]
                        == start.user_roles_view()[j],
                forall|j: int|
                    0 <= j < i ==> !(#[trigger] self.user_roles_view()[j]).contains(role_name@),
                forall|r: Seq<u8>|
                    r != role_name@ ==> #[trigger] self.member_amount(r) == start.member_amount(r),
            decreases count - i,
        {
            let ghost before_step = *self;
            let _ = self.remove_role_from_user(i + 1, role_name);
            proof {
                assert(self.user_roles_view()[i as int] == swap_removed(
                    before_step.user_roles_view()[i as int],
                    role_name@,
                ));
                let s = before_step.user_roles_view()[i as int];
                assert(views(before_step.user_roles@[i as int]@).no_duplicates());
                if s.contains(role_name@) {
                    let raw = before_step.user_roles@[i as int]@;
                    let w = views(raw);
                    assert(w == s);
                    lemma_first_index_contained(s, role_name@);
                    let k = first_index_of(s, role_name@);
                    lemma_swap_remove_views(raw, k);
                    assert(views(raw.update(k, raw.last()).drop_last()) =~= swap_removed(
                        s,
                        role_name@,
                    ));
                }
            }
            i = i + 1;
        }
        let ghost pre = *self;
        proof {
            lemma_holders_none(self.user_roles_view(), role_name@);
        }
        self.roles_member_amount.insert(copy_bytes(role_name), 0);
        proof {
            Members::lemma_policies_kept(pre, *self);
            assert forall|r: Seq<u8>| #[trigger]
                self.member_amount(r) == holders(self.user_roles_view(), r) by {
                if r != role_name@ {
                    assert(pre.member_amount(r) == start.member_amount(r));
                    assert(self.member_amount(r) == pre.member_amount(r));
                    assert(start.member_amount(r) == holders(start.user_roles_view(), r));
                    assert forall|j: int| 0 <= j < self.user_roles_view().len() implies (
                    self.user_roles_view()[j].contains(r) <==> start.user_roles_view()[j].contains(
                        r,
                    )) by {
                        assert(self.user_roles_view()[j] == swap_removed(
                            start.user_roles_view()[j],
                            role_name@,
                        ));
                        assert(views(start.user_roles@[j]@).no_duplicates());
                        lemma_swap_removed_seq(start.user_roles_view()[j], role_name@);
                    }
                    lemma_holders_same_membership(
                        self.user_roles_view(),
                        start.user_roles_view(),
                        r,
                    );
                }
            }
            assert forall|a: Seq<u8>| #[trigger]
                self.roles_of(a) == swap_removed(start.roles_of(a), role_name@) by {
                assert(self.users_view() == start.users_view());
                let id = start.user_id(a) as int;
                if !(1 <= id <= start.user_roles@.len()) {
                    assert(swap_removed(Seq::<Seq<u8>>::empty(), role_name@) == Seq::<
                        Seq<u8>,
                    >::empty());
                } else {
                    assert(self.user_roles_view()[id - 1] == swap_removed(
                        start.user_roles_view()[id - 1],
                        role_name@,
                    ));
                }
            }
        }
        Ok(())
    }

    /// The policies of a role in the order they were created.
    pub open spec fn policy_entries(&self, role: Seq<u8>) -> Seq<(Vec<u8>, Policy)> {
        if self.policies.map().contains_key(role) {
            self.policies.map()[role].entries@
        } else {
            Seq::empty()
        }
    }

    /// Registers a permission (or replaces the details of an existing one).
    pub fn create_permission(
        &mut self,
        permission_name: Vec<u8>,
        value: u128,
        destination: Vec<u8>,
        endpoint: Vec<u8>,
        arguments: Vec<Vec<u8>>,
        payments: Vec<Payment>,
    )
        requires
            old(self).wf(),
        ensures
            final(self).wf(),
            views(final(self).permissions@) == if old(self).permission_exists(permission_name@) {
                views(old(self).permissions@)
            } else {
                views(old(self).permissions@).push(permission_name@)
            },
            final(self).permission_details.map() == old(self).permission_details.map().insert(
                permission_name@,
                PermissionDetails { value, destination, endpoint, arguments, payments },
            ),
            final(self).users == old(self).users,
            final(self).user_roles == old(self).user_roles,
            final(self).roles == old(self).roles,
            final(self).roles_member_amount == old(self).roles_member_amount,
            final(self).policies == old(self).policies,
    {
        let ghost before = views(self.permissions@);
        let _ = set_insert(&mut self.permissions, copy_bytes(&permission_name));
        self.permission_details.insert(
            permission_name,
            PermissionDetails { value, destination, endpoint, arguments, payments },
        );
        proof {
            let now = views(self.permissions@);
            assert(now.no_duplicates()) by {
                if now != before {
                    assert forall|a: int, b: int|
                        0 <= a < now.len() && 0 <= b < now.len() && a != b implies now[a]
                        != now[b] by {
                        if a < before.len() && b < before.len() {
                            assert(before[a] != before[b]);
                        } else if a < before.len() {
                            assert(before[a] == now[a]);
                        } else {
                            assert(before[b] == now[b]);
                        }
                    }
                }
            }
            assert forall|p: Seq<u8>| #[trigger] now.contains(p) implies self.permission_details.map().contains_key(p) by {
                if p != permission_name@ {
                    assert(before.contains(p)) by {
                        let k = choose|k: int| 0 <= k < now.len() && now[k] == p;
                        if k < before.len() {
                            assert(before[k] == p);
                        }
                    }
                }
            }
            assert forall|r: Seq<u8>| #[trigger]
                self.member_amount(r) == holders(self.user_roles_view(), r) by {
                assert(old(self).member_amount(r) == holders(old(self).user_roles_view(), r));
            }
            assert forall|p: Seq<u8>| old(self).permission_exists(p) implies self.permission_exists(p) by {
                if p != permission_name@ {
                    let k = choose|k: int| 0 <= k < before.len() && before[k] == p;
                    assert(now[k] == p);
                }
            }
            Members::lemma_policies_kept(*old(self), *self);
        }
    }

    /// Attaches a policy for `permission_name` to `role_name`.
    pub fn create_policy(
        &mut self,
        role_name: &Vec<u8>,
        permission_name: Vec<u8>,
        method: PolicyMethod,
        quorum: u128,
        voting_period_minutes: usize,
    ) -> (result: Result<(), EntityError>)
        requires
            old(self).wf(),
        ensures
            final(self).wf(),
            !old(self).role_exists(role_name@) ==> result == Err::<(), EntityError>(
                EntityError::RoleDoesNotExist,
            ),
            old(self).role_exists(role_name@) && !old(self).permission_exists(permission_name@)
                ==> result == Err::<(), EntityError>(EntityError::PermissionDoesNotExist),
            old(self).role_exists(role_name@) && old(self).permission_exists(permission_name@)
                && old(self).policy_of(role_name@, permission_name@) is Some ==> result == Err::<
                (),
                EntityError,
            >(EntityError::PolicyAlreadyExists),
            result is Err ==> *final(self) == *old(self),
            old(self).role_exists(role_name@) && old(self).permission_exists(permission_name@)
                && old(self).policy_of(role_name@, permission_name@) is None ==> result is Ok,
            result is Ok ==> {
                &&& final(self).policy_entries(role_name@) == old(self).policy_entries(
                    role_name@,
                ).push((permission_name, Policy { method, quorum, voting_period_minutes }))
                &&& forall|r: Seq<u8>|
                    r != role_name@ ==> #[trigger] final(self).policy_entries(r) == old(
                        self,
                    ).policy_entries(r)
                &&& forall|r: Seq<u8>, p: Seq<u8>| #[trigger]
                    final(self).policy_of(r, p) == if r == role_name@ && p == permission_name@ {
                        Some(Policy { method, quorum, voting_period_minutes })
                    } else {
                        old(self).policy_of(r, p)
                    }
                &&& final(self).users == old(self).users
                &&& final(self).user_roles == old(self).user_roles
                &&& final(self).roles == old(self).roles
                &&& final(self).roles_member_amount == old(self).roles_member_amount
                &&& final(self).permissions == old(self).permissions
                &&& final(self).permission_details == old(self).permission_details
            },
    {
        if !set_contains(&self.roles, role_name) {
            return Err(EntityError::RoleDoesNotExist);
        }
        if !set_contains(&self.permissions, &permission_name) {
            return Err(EntityError::PermissionDoesNotExist);
        }
        let exists = match self.policies.get(role_name) {
            Some(existing) => existing.contains_key(&permission_name),
            None => false,
        };
        if exists {
            return Err(EntityError::PolicyAlreadyExists);
        }
        let mut role_policies = match self.policies.take(role_name) {
            Some(existing) => existing,
            None => Store::new(),
        };
        let ghost taken = role_policies;
        proof {
            assert(taken.entries@ == old(self).policy_entries(role_name@));
            assert(taken.map() == if old(self).policies.map().contains_key(role_name@) {
                old(self).policies.map()[role_name@].map()
            } else {
                Map::<Seq<u8>, Policy>::empty()
            });
        }
        role_policies.insert(permission_name, Policy { method, quorum, voting_period_minutes });
        let ghost inserted = role_policies;
        self.policies.insert(copy_bytes(role_name), role_policies);
        proof {
            assert(self.policies.map()[role_name@] == inserted);
            assert forall|r: Seq<u8>, p: Seq<u8>| #[trigger]
                self.policy_of(r, p) == if r == role_name@ && p == permission_name@ {
                    Some(Policy { method, quorum, voting_period_minutes })
                } else {
                    old(self).policy_of(r, p)
                } by {
                if r == role_name@ {
                    assert(inserted.map() == taken.map().insert(permission_name@, Policy { method, quorum, voting_period_minutes }));
                }
            }
            assert forall|r: Seq<u8>| r != role_name@ implies #[trigger] self.policy_entries(r)
                == old(self).policy_entries(r) by {}
            assert forall|r: Seq<u8>| #[trigger]
                self.member_amount(r) == holders(self.user_roles_view(), r) by {
                assert(old(self).member_amount(r) == holders(old(self).user_roles_view(), r));
            }
            assert forall|r: Seq<u8>| #[trigger]
                self.policies.map().contains_key(r) implies self.policies.map()[r].wf() by {
                if r != role_name@ {
                    assert(old(self).policies.map().contains_key(r));
                }
            }
            assert forall|p: Seq<u8>| #[trigger]
                views(self.permissions@).contains(p) implies self.permission_details.map().contains_key(p) by {
                assert(views(old(self).permissions@).contains(p));
            }
        }
        Ok(())
    }

    /// The policies that `role` has for the permissions `perms`, in the order
    /// of `perms`.
    pub open spec fn role_policies(&self, role: Seq<u8>, perms: Seq<Seq<u8>>) -> Seq<Policy>
        decreases perms.len(),
    {
        if perms.len() == 0 {
            Seq::empty()
        } else {
            self.role_policies(role, perms.drop_last()) + match self.policy_of(
                role,
                perms.last(),
            ) {
                Some(p) => seq![p],
                None => Seq::empty(),
            }
        }
    }

    /// The policies of the roles `roles` for the permissions `perms`, role by
    /// role.
    pub open spec fn policies_for(&self, roles: Seq<Seq<u8>>, perms: Seq<Seq<u8>>) -> Seq<Policy>
        decreases roles.len(),
    {
        if roles.len() == 0 {
            Seq::empty()
        } else {
            self.policies_for(roles.drop_last(), perms) + self.role_policies(roles.last(), perms)
        }
    }

    /// The policy of `role` for `permission`.
    pub fn get_policy(&self, role_name: &Vec<u8>, permission_name: &Vec<u8>) -> (policy: Option<
        Policy,
    >)
        requires
            self.wf(),
        ensures
            policy == self.policy_of(role_name@, permission_name@),
    {
        match self.policies.get(role_name) {
            Some(role_policies) => match role_policies.get(permission_name) {
                Some(p) => Some(p.copy()),
                None => None,
            },
            None => None,
        }
    }

    /// Whether the user with `address` may propose actions guarded by
    /// `permissions`, and the policies of its roles for them: leaders may,
    /// and so may members of a role with a policy for one of them.
    pub fn get_user_policies_for_permissions(
        &self,
        address: &Vec<u8>,
        permissions: &Vec<Vec<u8>>,
    ) -> (result: (bool, Vec<Policy>))
        requires
            self.wf(),
        ensures
            result.1@ == self.policies_for(self.roles_of(address@), views(permissions@)),
            result.0 == (self.roles_of(address@).contains(leader_role()) || result.1@.len() > 0),
    {
        let proposer_id = self.get_user_id(address);
        if proposer_id == 0 {
            proof {
                assert(self.roles_of(address@) =~= Seq::<Seq<u8>>::empty());
            }
            return (false, Vec::new());
        }
        let proposer_roles = self.roles_of_user(proposer_id);
        let ghost roles = views(proposer_roles@);
        let ghost perms = views(permissions@);
        let leader = role_builtin_leader();
        let mut policies: Vec<Policy> = Vec::new();
        let mut allowed = false;
        let mut i: usize = 0;
        while i < proposer_roles.len()
            invariant
                self.wf(),
                roles == views(proposer_roles@),
                perms == views(permissions@),
                leader@ == leader_role(),
                i <= roles.len(),
                policies@ == self.policies_for(roles.take(i as int), perms),
                allowed == (roles.take(i as int).contains(leader_role()) || policies@.len() > 0),
            decreases roles.len() - i,
        {
            let role = &proposer_roles[i];
            let is_leader = bytes_eq(role, &leader);
            if is_leader {
                allowed = true;
            }
            let ghost before = policies@;
            let mut j: usize = 0;
            while j < permissions.len()
                invariant
                    self.wf(),
                    i < roles.len(),
                    role@ == roles[i as int],
                    perms == views(permissions@),
                    j <= perms.len(),
                    policies@ == before + self.role_policies(roles[i as int], perms.take(j as int)),
                    allowed == (roles.take(i as int).contains(leader_role()) || is_leader || policies@.len() > 0),
                decreases perms.len() - j,
            {
                let permission = &permissions[j];
                proof {
                    assert(perms.take(j as int + 1).drop_last() =~= perms.take(j as int));
                    assert(perms.take(j as int + 1).last() == permission@);
                }
                match self.get_policy(role, permission) {
                    Some(policy) => {
                        policies.push(policy);
                        allowed = true;
                    },
                    None => {},
                }
                proof {
                    assert(policies@ =~= before + self.role_policies(roles[i as int], perms.take(j as int + 1)));
                }
                j = j + 1;
            }
            proof {
                assert(perms.take(perms.len() as int) =~= perms);
                assert(roles.take(i as int + 1).drop_last() =~= roles.take(i as int));
                assert(roles.take(i as int + 1).last() == roles[i as int]);
                assert(roles.take(i as int + 1).contains(leader_role()) <==> (roles.take(i as int).contains(leader_role()) || roles[i as int] == leader_role())) by {
                    let t = roles.take(i as int + 1);
                    if t.contains(leader_role()) {
                        let k = choose|k: int| 0 <= k < t.len() && t[k] == leader_role();
                        if k < i {
                            assert(roles.take(i as int)[k] == leader_role());
                        }
                    }
                    if roles.take(i as int).contains(leader_role()) {
                        let k = choose|k: int| 0 <= k < i && roles.take(i as int)[k] == leader_role();
                        assert(t[k] == leader_role());
                    }
                    if roles[i as int] == leader_role() {
                        assert(t[i as int] == leader_role());
                    }
                }
            }
            i = i + 1;
        }
        proof {
            assert(roles.take(roles.len() as int) =~= roles);
        }
        (allowed, policies)
    }
}

/// Whether one of the policies weighs votes by tokens.
pub open spec fn has_weighted(policies: Seq<Policy>) -> bool {
    exists|i: int| 0 <= i < policies.len() && (#[trigger] policies[i]).method == PolicyMethod::Weight
}

pub fn has_token_weighted_policy(policies: &Vec<Policy>) -> (weighted: bool)
    ensures
        weighted == has_weighted(policies@),
{
    let mut i: usize = 0;
    while i < policies.len()
        invariant
            i <= policies@.len(),
            forall|j: int| 0 <= j < i ==> (#[trigger] policies@[j]).method != PolicyMethod::Weight,
        decreases policies@.len() - i,
    {
        if policies[i].method == PolicyMethod::Weight {
            return true;
        }
        i = i + 1;
    }
    false
}

impl EntityContract {

    fn create_policy_checked(
        &mut self,
        ctx: &CallContext,
        role_name: &Vec<u8>,
        permission_name: Vec<u8>,
        method: PolicyMethod,
        quorum: u128,
        voting_period_minutes: usize,
    ) -> (result: Result<(), EntityError>)
        requires
            old(self).wf(),
        ensures
            final(self).wf(),
            ({
                let refusal = old(self).policy_refusal(ctx.caller@, ctx.sc_address@, role_name@, permission_name@);
                match result {
                    Err(e) => refusal == Some(e) && *final(self) == *old(self),
                    Ok(_) => refusal is None,
                }
            }),
            result is Ok ==> {
                &&& forall|r: Seq<u8>, p: Seq<u8>| #[trigger] final(self).members.policy_of(r, p) == if r == role_name@ && p == permission_name@ {
                    Some(Policy { method, quorum, voting_period_minutes })
                } else {
                    old(self).members.policy_of(r, p)
                }
                &&& final(self).members.policy_entries(role_name@) == old(self).members.policy_entries(role_name@).push(
                    (permission_name, Policy { method, quorum, voting_period_minutes }),
                )
                &&& *final(self) == (EntityContract { members: Members { policies: final(self).members.policies, ..old(self).members }, ..*old(self) })
            },
    {
        require_caller_self(ctx)?;
        self.members.create_policy(role_name, permission_name, method, quorum, voting_period_minutes)?;
        proof {
            EntityContract::lemma_deposits_kept(old(self), self);
        }
        Ok(())
    }

    /// Why creating a policy would be refused, if it would.
    pub open spec fn policy_refusal(&self, caller: Seq<u8>, sc_address: Seq<u8>, role: Seq<u8>, permission: Seq<u8>) -> Option<EntityError> {
        if caller != sc_address {
            Some(EntityError::ActionNotAllowedByUser)
        } else if !self.members.role_exists(role) {
            Some(EntityError::RoleDoesNotExist)
        } else if !self.members.permission_exists(permission) {
            Some(EntityError::PermissionDoesNotExist)
        } else if self.members.policy_of(role, permission) is Some {
            Some(EntityError::PolicyAlreadyExists)
        } else {
            None
        }
    }
}

/// The endpoints and views by which the entity manages its roles,
/// permissions and policies.
pub trait PermissionModule {
    /// The state invariant that every method keeps.
    spec fn wf(&self) -> bool;

    /// Room for one more user.
    spec fn has_room_for_user(&self) -> bool;

    fn create_role_endpoint(&mut self, ctx: &CallContext, role_name: Vec<u8>) -> (result: Result<(), EntityError>)
        requires
            old(self).wf(),
        ensures
            final(self).wf(),
    ;

    fn remove_role_endpoint(&mut self, ctx: &CallContext, role_name: &Vec<u8>) -> (result: Result<(), EntityError>)
        requires
            old(self).wf(),
        ensures
            final(self).wf(),
    ;

    fn assign_role_endpoint(&mut self, ctx: &CallContext, role_name: &Vec<u8>, address: &Vec<u8>) -> (result: Result<(), EntityError>)
        requires
            old(self).wf(),
            old(self).has_room_for_user(),
        ensures
            final(self).wf(),
    ;

    fn unassign_role_endpoint(&mut self, ctx: &CallContext, role_name: &Vec<u8>, address: &Vec<u8>) -> (result: Result<(), EntityError>)
        requires
            old(self).wf(),
            old(self).has_room_for_user(),
        ensures
            final(self).wf(),
    ;

    fn create_permission_endpoint(
        &mut self,
        ctx: &CallContext,
        permission_name: Vec<u8>,
        value: u128,
        destination: Vec<u8>,
        endpoint: Vec<u8>,
        payments: Vec<Payment>,
    ) -> (result: Result<(), EntityError>)
        requires
            old(self).wf(),
        ensures
            final(self).wf(),
    ;

    fn create_policy_weighted_endpoint(&mut self, ctx: &CallContext, role_name: &Vec<u8>, permission_name: Vec<u8>, quorum: u128, voting_period_minutes: usize) -> (result: Result<(), EntityError>)
        requires
            old(self).wf(),
        ensures
            final(self).wf(),
    ;

    fn create_policy_one_endpoint(&mut self, ctx: &CallContext, role_name: &Vec<u8>, permission_name: Vec<u8>) -> (result: Result<(), EntityError>)
        requires
            old(self).wf(),
        ensures
            final(self).wf(),
    ;

    fn create_policy_all_endpoint(&mut self, ctx: &CallContext, role_name: &Vec<u8>, permission_name: Vec<u8>) -> (result: Result<(), EntityError>)
        requires
            old(self).wf(),
        ensures
            final(self).wf(),
    ;

    fn create_policy_quorum_endpoint(&mut self, ctx: &CallContext, role_name: &Vec<u8>, permission_name: Vec<u8>, quorum: usize) -> (result: Result<(), EntityError>)
        requires
            old(self).wf(),
        ensures
            final(self).wf(),
    ;

    /// The roles of the user with `address`.
    fn get_user_roles_view(&self, address: &Vec<u8>) -> (roles: Vec<Vec<u8>>)
        requires
            self.wf(),
    ;

    /// Every permission, in the order they were registered, with its
    /// details: value, destination, endpoint, the number and list of its
    /// arguments, and the number and list of its payments.
    fn get_permissions_view(&self) -> (permissions: Vec<(Vec<u8>, u128, Vec<u8>, Vec<u8>, usize, Vec<Vec<u8>>, usize, Vec<Payment>)>)
        requires
            self.wf(),
    ;

    /// The policies of a role, in the order they were created: permission
    /// name, method name, quorum and voting period.
    fn get_policies_view(&self, role_name: &Vec<u8>) -> (policies: Vec<(Vec<u8>, Vec<u8>, u128, usize)>)
        requires
            self.wf(),
    ;
}

impl PermissionModule for EntityContract {
    open spec fn wf(&self) -> bool {
        EntityContract::wf(self)
    }

    open spec fn has_room_for_user(&self) -> bool {
        self.members.has_room_for_user()
    }

    /// Creates a role. Only the contract itself may do so.
    fn create_role_endpoint(&mut self, ctx: &CallContext, role_name: Vec<u8>) -> (result: Result<(), EntityError>)
        ensures
            final(self).wf(),
            ctx.caller@ != ctx.sc_address@ ==> result == Err::<(), EntityError>(EntityError::ActionNotAllowedByUser),
            ctx.caller@ == ctx.sc_address@ && old(self).members.role_exists(role_name@) ==> result == Err::<(), EntityError>(EntityError::RoleAlreadyExists),
            ctx.caller@ == ctx.sc_address@ && !old(self).members.role_exists(role_name@) ==> result is Ok,
            result is Err ==> *final(self) == *old(self),
            result is Ok ==> ctx.caller@ == ctx.sc_address@ && !old(self).members.role_exists(role_name@)
                && views(final(self).members.roles@) == views(old(self).members.roles@).push(role_name@)
                && *final(self) == (EntityContract { members: Members { roles: final(self).members.roles, ..old(self).members }, ..*old(self) }),
    {
        require_caller_self(ctx)?;
        self.members.create_role(role_name)?;
        proof {
            EntityContract::lemma_deposits_kept(old(self), self);
        }
        Ok(())
    }

    /// Removes a role and takes it from every user. Only the contract
    /// itself may do so.
    fn remove_role_endpoint(&mut self, ctx: &CallContext, role_name: &Vec<u8>) -> (result: Result<(), EntityError>)
        ensures
            final(self).wf(),
            ctx.caller@ != ctx.sc_address@ ==> result == Err::<(), EntityError>(EntityError::ActionNotAllowedByUser),
            ctx.caller@ == ctx.sc_address@ && !old(self).members.role_exists(role_name@) ==> result == Err::<(), EntityError>(EntityError::RoleDoesNotExist),
            ctx.caller@ == ctx.sc_address@ && old(self).members.role_exists(role_name@) ==> result is Ok,
            result is Err ==> *final(self) == *old(self),
            result is Ok ==> {
                &&& ctx.caller@ == ctx.sc_address@ && old(self).members.role_exists(role_name@)
                &&& views(final(self).members.roles@) == crate::store::swap_removed(views(old(self).members.roles@), role_name@)
                &&& forall|a: Seq<u8>| #[trigger] final(self).members.roles_of(a) == crate::store::swap_removed(old(self).members.roles_of(a), role_name@)
                &&& final(self).members.member_amount(role_name@) == 0
                &&& final(self).members.users == old(self).members.users
                &&& final(self).members.policies == old(self).members.policies
                &&& final(self).members.permissions == old(self).members.permissions
                &&& *final(self) == (EntityContract { members: final(self).members, ..*old(self) })
            },
    {
        require_caller_self(ctx)?;
        self.members.remove_role(role_name)?;
        proof {
            EntityContract::lemma_deposits_kept(old(self), self);
        }
        Ok(())
    }

    /// Gives the user with `address` the role. Only the contract itself may
    /// do so.
    fn assign_role_endpoint(&mut self, ctx: &CallContext, role_name: &Vec<u8>, address: &Vec<u8>) -> (result: Result<(), EntityError>)
        ensures
            final(self).wf(),
            ctx.caller@ != ctx.sc_address@ ==> result == Err::<(), EntityError>(EntityError::ActionNotAllowedByUser),
            ctx.caller@ == ctx.sc_address@ && !old(self).members.role_exists(role_name@) ==> result == Err::<(), EntityError>(EntityError::RoleDoesNotExist),
            ctx.caller@ == ctx.sc_address@ && old(self).members.role_exists(role_name@) ==> result is Ok,
            result is Err ==> *final(self) == *old(self),
            result is Ok ==> {
                &&& ctx.caller@ == ctx.sc_address@ && old(self).members.role_exists(role_name@)
                &&& final(self).members.roles_of(address@) == set_with(old(self).members.roles_of(address@), role_name@)
                &&& forall|a: Seq<u8>| a != address@ ==> #[trigger] final(self).members.roles_of(a) == old(self).members.roles_of(a)
                &&& final(self).members.roles == old(self).members.roles
                &&& final(self).members.policies == old(self).members.policies
                &&& final(self).members.permissions == old(self).members.permissions
                &&& *final(self) == (EntityContract { members: final(self).members, ..*old(self) })
            },
    {
        require_caller_self(ctx)?;
        self.members.assign_role(address, role_name)?;
        proof {
            EntityContract::lemma_deposits_kept(old(self), self);
        }
        Ok(())
    }

    /// Takes the role from the user with `address`; taking the last leader
    /// needs a governance token or a plug. Only the contract itself may do
    /// so.
    fn unassign_role_endpoint(&mut self, ctx: &CallContext, role_name: &Vec<u8>, address: &Vec<u8>) -> (result: Result<(), EntityError>)
        ensures
            final(self).wf(),
            ctx.caller@ != ctx.sc_address@ ==> result == Err::<(), EntityError>(EntityError::ActionNotAllowedByUser),
            ctx.caller@ == ctx.sc_address@ && !old(self).members.role_exists(role_name@) ==> result == Err::<(), EntityError>(EntityError::RoleDoesNotExist),
            ctx.caller@ == ctx.sc_address@ && old(self).members.role_exists(role_name@) && role_name@ == leader_role()
                && old(self).members.member_amount(role_name@) == 1 && !old(self).plug.plugged() && !old(self).config.has_gov_token()
                ==> result == Err::<(), EntityError>(EntityError::LastLeader),
            ctx.caller@ == ctx.sc_address@ && old(self).members.role_exists(role_name@) && !(role_name@ == leader_role() && old(self).members.member_amount(role_name@) == 1 && !old(self).plug.plugged() && !old(self).config.has_gov_token()) ==> result is Ok,
            result is Err ==> *final(self) == *old(self),
            result is Ok ==> {
                &&& ctx.caller@ == ctx.sc_address@ && old(self).members.role_exists(role_name@)
                &&& !old(self).members.role_exists(role_name@) || !(role_name@ == leader_role() && old(self).members.member_amount(role_name@) == 1)
                    || old(self).plug.plugged() || old(self).config.has_gov_token()
                &&& final(self).members.roles_of(address@) == crate::store::swap_removed(old(self).members.roles_of(address@), role_name@)
                &&& role_name@ == leader_role() && old(self).members.member_amount(role_name@) == 1
                    && old(self).members.roles_of(address@).contains(role_name@) ==> {
                    &&& views(final(self).members.roles@) == crate::store::swap_removed(views(old(self).members.roles@), role_name@)
                    &&& forall|a: Seq<u8>| #[trigger] final(self).members.roles_of(a) == crate::store::swap_removed(old(self).members.roles_of(a), role_name@)
                }
                &&& !(role_name@ == leader_role() && old(self).members.member_amount(role_name@) == 1
                    && old(self).members.roles_of(address@).contains(role_name@)) ==> {
                    &&& final(self).members.roles == old(self).members.roles
                    &&& forall|a: Seq<u8>| a != address@ ==> #[trigger] final(self).members.roles_of(a) == old(self).members.roles_of(a)
                }
                &&& final(self).members.permissions == old(self).members.permissions
                &&& final(self).members.permission_details == old(self).members.permission_details
                &&& final(self).members.policies == old(self).members.policies
                &&& *final(self) == (EntityContract { members: final(self).members, ..*old(self) })
            },
    {
        require_caller_self(ctx)?;
        let is_plugged = self.plug.is_plugged();
        let has_gov_token = self.config.gov_token_id.len() != 0;
        self.members.unassign_role(address, role_name, is_plugged, has_gov_token)?;
        proof {
            EntityContract::lemma_deposits_kept(old(self), self);
        }
        Ok(())
    }

    /// Registers a permission over calls to `destination` at `endpoint`
    /// with at most `value` and the given payments. Only the contract itself
    /// may do so.
    fn create_permission_endpoint(
        &mut self,
        ctx: &CallContext,
        permission_name: Vec<u8>,
        value: u128,
        destination: Vec<u8>,
        endpoint: Vec<u8>,
        payments: Vec<Payment>,
    ) -> (result: Result<(), EntityError>)
        ensures
            final(self).wf(),
            ctx.caller@ != ctx.sc_address@ ==> result == Err::<(), EntityError>(EntityError::ActionNotAllowedByUser)
                && *final(self) == *old(self),
            ctx.caller@ == ctx.sc_address@ ==> {
                &&& result is Ok
                &&& views(final(self).members.permissions@) == set_with(views(old(self).members.permissions@), permission_name@)
                &&& final(self).members.permission_details.map().contains_key(permission_name@)
                &&& final(self).members.permission_details.map()[permission_name@]@ == crate::permission::PermissionDetailsView {
                    value,
                    destination: destination@,
                    endpoint: endpoint@,
                    arguments: Seq::empty(),
                    payments: views(payments@),
                }
                &&& *final(self) == (EntityContract {
                    members: Members {
                        permissions: final(self).members.permissions,
                        permission_details: final(self).members.permission_details,
                        ..old(self).members
                    },
                    ..*old(self)
                })
            },
    {
        require_caller_self(ctx)?;
        let ghost dest = destination@;
        let ghost end = endpoint@;
        let ghost pays = views(payments@);
        let arguments: Vec<Vec<u8>> = Vec::new();
        assert(views(arguments@) =~= Seq::<Seq<u8>>::empty());
        self.members.create_permission(permission_name, value, destination, endpoint, arguments, payments);
        proof {
            EntityContract::lemma_deposits_kept(old(self), self);
        }
        Ok(())
    }

    /// A policy by which members of the role vote with tokens, reaching
    /// `quorum`, within `voting_period_minutes`.
    fn create_policy_weighted_endpoint(&mut self, ctx: &CallContext, role_name: &Vec<u8>, permission_name: Vec<u8>, quorum: u128, voting_period_minutes: usize) -> (result: Result<(), EntityError>)
        ensures
            final(self).wf(),
            ({
                let refusal = old(self).policy_refusal(ctx.caller@, ctx.sc_address@, role_name@, permission_name@);
                match result {
                    Err(e) => refusal == Some(e) && *final(self) == *old(self),
                    Ok(_) => refusal is None && final(self).members.policy_of(role_name@, permission_name@) == Some(
                        Policy { method: PolicyMethod::Weight, quorum, voting_period_minutes },
                    )
                        && (forall|r: Seq<u8>, q: Seq<u8>| (r, q) != (role_name@, permission_name@) ==> #[trigger] final(self).members.policy_of(r, q) == old(self).members.policy_of(r, q))
                        && *final(self) == (EntityContract { members: Members { policies: final(self).members.policies, ..old(self).members }, ..*old(self) }),
                }
            }),
    {
        self.create_policy_checked(ctx, role_name, permission_name, PolicyMethod::Weight, quorum, voting_period_minutes)
    }

    /// A policy by which one member of the role may use the permission.
    fn create_policy_one_endpoint(&mut self, ctx: &CallContext, role_name: &Vec<u8>, permission_name: Vec<u8>) -> (result: Result<(), EntityError>)
        ensures
            final(self).wf(),
            ({
                let refusal = old(self).policy_refusal(ctx.caller@, ctx.sc_address@, role_name@, permission_name@);
                match result {
                    Err(e) => refusal == Some(e) && *final(self) == *old(self),
                    Ok(_) => refusal is None && final(self).members.policy_of(role_name@, permission_name@) == Some(
                        Policy { method: PolicyMethod::One, quorum: 1, voting_period_minutes: 0 },
                    )
                        && (forall|r: Seq<u8>, q: Seq<u8>| (r, q) != (role_name@, permission_name@) ==> #[trigger] final(self).members.policy_of(r, q) == old(self).members.policy_of(r, q))
                        && *final(self) == (EntityContract { members: Members { policies: final(self).members.policies, ..old(self).members }, ..*old(self) }),
                }
            }),
    {
        self.create_policy_checked(ctx, role_name, permission_name, PolicyMethod::One, 1, 0)
    }

    /// A policy by which all members of the role must sign.
    fn create_policy_all_endpoint(&mut self, ctx: &CallContext, role_name: &Vec<u8>, permission_name: Vec<u8>) -> (result: Result<(), EntityError>)
        ensures
            final(self).wf(),
            ({
                let refusal = old(self).policy_refusal(ctx.caller@, ctx.sc_address@, role_name@, permission_name@);
                match result {
                    Err(e) => refusal == Some(e) && *final(self) == *old(self),
                    Ok(_) => refusal is None && final(self).members.policy_of(role_name@, permission_name@) == Some(
                        Policy { method: PolicyMethod::All, quorum: 0, voting_period_minutes: old(self).config.voting_period_in_minutes },
                    )
                        && (forall|r: Seq<u8>, q: Seq<u8>| (r, q) != (role_name@, permission_name@) ==> #[trigger] final(self).members.policy_of(r, q) == old(self).members.policy_of(r, q))
                        && *final(self) == (EntityContract { members: Members { policies: final(self).members.policies, ..old(self).members }, ..*old(self) }),
                }
            }),
    {
        let voting_period = self.config.voting_period_in_minutes;
        self.create_policy_checked(ctx, role_name, permission_name, PolicyMethod::All, 0, voting_period)
    }

    /// A policy by which `quorum` members of the role must sign.
    fn create_policy_quorum_endpoint(&mut self, ctx: &CallContext, role_name: &Vec<u8>, permission_name: Vec<u8>, quorum: usize) -> (result: Result<(), EntityError>)
        ensures
            final(self).wf(),
            ({
                let refusal = old(self).policy_refusal(ctx.caller@, ctx.sc_address@, role_name@, permission_name@);
                match result {
                    Err(e) => refusal == Some(e) && *final(self) == *old(self),
                    Ok(_) => refusal is None && final(self).members.policy_of(role_name@, permission_name@) == Some(
                        Policy { method: PolicyMethod::Quorum, quorum: quorum as u128, voting_period_minutes: old(self).config.voting_period_in_minutes },
                    )
                        && (forall|r: Seq<u8>, q: Seq<u8>| (r, q) != (role_name@, permission_name@) ==> #[trigger] final(self).members.policy_of(r, q) == old(self).members.policy_of(r, q))
                        && *final(self) == (EntityContract { members: Members { policies: final(self).members.policies, ..old(self).members }, ..*old(self) }),
                }
            }),
    {
        let voting_period = self.config.voting_period_in_minutes;
        self.create_policy_checked(ctx, role_name, permission_name, PolicyMethod::Quorum, quorum as u128, voting_period)
    }

    /// The roles of the user with `address`.
    fn get_user_roles_view(&self, address: &Vec<u8>) -> (roles: Vec<Vec<u8>>)
        ensures
            views(roles@) == self.members.roles_of(address@),
    {
        self.members.get_user_roles(address)
    }

    /// Every permission, in the order they were registered, with its
    /// details: value, destination, endpoint, the number and list of its
    /// arguments, and the number and list of its payments.
    fn get_permissions_view(&self) -> (permissions: Vec<(Vec<u8>, u128, Vec<u8>, Vec<u8>, usize, Vec<Vec<u8>>, usize, Vec<Payment>)>)
        ensures
            permissions@.len() == self.members.permissions@.len(),
            forall|i: int| 0 <= i < permissions@.len() ==> {
                let name = self.members.permissions@[i]@;
                let d = self.members.permission_details.map()[name]@;
                let entry = #[trigger] permissions@[i];
                &&& entry.0@ == name
                &&& entry.1 == d.value
                &&& entry.2@ == d.destination
                &&& entry.3@ == d.endpoint
                &&& entry.4 == d.arguments.len()
                &&& views(entry.5@) == d.arguments
                &&& entry.6 == d.payments.len()
                &&& views(entry.7@) == d.payments
            },
    {
        let mut out: Vec<(Vec<u8>, u128, Vec<u8>, Vec<u8>, usize, Vec<Vec<u8>>, usize, Vec<Payment>)> = Vec::new();
        let mut i: usize = 0;
        while i < self.members.permissions.len()
            invariant
                self.members.wf(),
                i <= self.members.permissions@.len(),
                out@.len() == i,
                forall|j: int| 0 <= j < i ==> {
                    let name = self.members.permissions@[j]@;
                    let d = self.members.permission_details.map()[name]@;
                    let entry = #[trigger] out@[j];
                    &&& entry.0@ == name
                    &&& entry.1 == d.value
                    &&& entry.2@ == d.destination
                    &&& entry.3@ == d.endpoint
                    &&& entry.4 == d.arguments.len()
                    &&& views(entry.5@) == d.arguments
                    &&& entry.6 == d.payments.len()
                    &&& views(entry.7@) == d.payments
                },
            decreases self.members.permissions@.len() - i,
        {
            let name = &self.members.permissions[i];
            proof {
                assert(views(self.members.permissions@)[i as int] == name@);
                assert(self.members.permission_exists(name@));
            }
            match self.members.permission_details.get(name) {
                Some(d) => {
                    let details = d.copy();
                    let arguments_len = details.arguments.len();
                    let payments_len = details.payments.len();
                    out.push((copy_bytes(name), details.value, details.destination, details.endpoint, arguments_len, details.arguments, payments_len, details.payments));
                },
                None => {
                    proof {
                        assert(false);
                    }
                },
            }
            i = i + 1;
        }
        out
    }

    /// The policies of a role, in the order they were created: permission
    /// name, method name, quorum and voting period.
    fn get_policies_view(&self, role_name: &Vec<u8>) -> (policies: Vec<(Vec<u8>, Vec<u8>, u128, usize)>)
        ensures
            policies@.len() == self.members.policy_entries(role_name@).len(),
            forall|i: int| 0 <= i < policies@.len() ==> {
                let e = self.members.policy_entries(role_name@)[i];
                let entry = #[trigger] policies@[i];
                &&& entry.0@ == e.0@
                &&& entry.1@ == policy_method_name(e.1.method)
                &&& entry.2 == e.1.quorum
                &&& entry.3 == e.1.voting_period_minutes
            },
    {
        let empty: Vec<(Vec<u8>, Policy)> = Vec::new();
        let entries = match self.members.policies.get(role_name) {
            Some(st) => &st.entries,
            None => &empty,
        };
        proof {
            assert(entries@ == self.members.policy_entries(role_name@));
        }
        let mut out: Vec<(Vec<u8>, Vec<u8>, u128, usize)> = Vec::new();
        let mut i: usize = 0;
        while i < entries.len()
            invariant
                i <= entries@.len(),
                entries@ == self.members.policy_entries(role_name@),
                out@.len() == i,
                forall|j: int| 0 <= j < i ==> {
                    let e = entries@[j];
                    let entry = #[trigger] out@[j];
                    &&& entry.0@ == e.0@
                    &&& entry.1@ == policy_method_name(e.1.method)
                    &&& entry.2 == e.1.quorum
                    &&& entry.3 == e.1.voting_period_minutes
                },
            decreases entries@.len() - i,
        {
            let entry = &entries[i];
            out.push((copy_bytes(&entry.0), entry.1.method.to_name(), entry.1.quorum, entry.1.voting_period_minutes));
            i = i + 1;
        }
        out
    }
}

} // verus!
