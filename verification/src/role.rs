//! The role hierarchy of a room: named permission vectors, compared by
//! weight, held in a table that `add_role` keeps sorted in descending
//! weight and whose names stay unique.

use vstd::prelude::*;
use vstd::seq_lib::*;

use crate::random::new_tag;

verus! {

/// Errors of the role table.
#[derive(Clone, Copy, Debug, PartialEq, Eq, Structural)]
pub enum RoleError {
    NameAlreadyExists,
}

/// Permission vector of a role: five booleans.
#[derive(Clone, Copy, Debug, PartialEq, Eq, Structural)]
pub struct RolePermission {
    pub can_use_controls: bool,
    pub can_manage_users: bool,
    pub can_add_song: bool,
    pub can_add_moderator: bool,
    pub can_manage_room: bool,
}

/// Weight of a permission vector; roles compare by weight, ties compare
/// equal.
pub open spec fn role_weight(p: RolePermission) -> int {
    (if p.can_add_song { 1int } else { 0int })
        + (if p.can_use_controls { 2int } else { 0int })
        + (if p.can_manage_users { 3int } else { 0int })
        + (if p.can_add_moderator { 4int } else { 0int })
        + (if p.can_manage_room { 5int } else { 0int })
}

/// Permissions of the least powerful seeded role.
pub open spec fn guest_permissions() -> RolePermission {
    RolePermission {
        can_use_controls: false,
        can_manage_users: false,
        can_add_song: false,
        can_add_moderator: false,
        can_manage_room: false,
    }
}

pub open spec fn vip_permissions() -> RolePermission {
    RolePermission {
        can_use_controls: false,
        can_manage_users: false,
        can_add_song: true,
        can_add_moderator: false,
        can_manage_room: false,
    }
}

pub open spec fn moderator_permissions() -> RolePermission {
    RolePermission {
        can_use_controls: true,
        can_manage_users: true,
        can_add_song: true,
        can_add_moderator: false,
        can_manage_room: false,
    }
}

pub open spec fn admin_permissions() -> RolePermission {
    RolePermission {
        can_use_controls: true,
        can_manage_users: true,
        can_add_song: true,
        can_add_moderator: true,
        can_manage_room: false,
    }
}

/// Permissions of the most powerful seeded role; the only seeded role
/// with `can_manage_room`.
pub open spec fn owner_permissions() -> RolePermission {
    RolePermission {
        can_use_controls: true,
        can_manage_users: true,
        can_add_song: true,
        can_add_moderator: true,
        can_manage_room: true,
    }
}

/// A role: a time-ordered unique tag, a display name, and a permission
/// vector.
#[derive(Debug)]
pub struct Role {
    pub id: u128,
    pub name: String,
    pub permissions: RolePermission,
}

impl Clone for Role {
    fn clone(&self) -> (r: Self)
        ensures
            r == *self,
    {
        Role { id: self.id, name: self.name.clone(), permissions: self.permissions }
    }
}

impl Role {
    /// The weight of this role's permission vector.
    pub fn weight(&self) -> (w: u8)
        ensures
            w as int == role_weight(self.permissions),
    {
        let mut w: u8 = 0;
        if self.permissions.can_add_song {
            w = w + 1;
        }
        if self.permissions.can_use_controls {
            w = w + 2;
        }
        if self.permissions.can_manage_users {
            w = w + 3;
        }
        if self.permissions.can_add_moderator {
            w = w + 4;
        }
        if self.permissions.can_manage_room {
            w = w + 5;
        }
        w
    }

    pub fn new_guest() -> (r: Role)
        ensures
            r.name@ == "Guest"@,
            r.permissions == guest_permissions(),
    {
        Role { id: new_tag(), name: "Guest".to_owned(), permissions: RolePermission {
            can_use_controls: false,
            can_manage_users: false,
            can_add_song: false,
            can_add_moderator: false,
            can_manage_room: false,
        } }
    }

    pub fn new_vip() -> (r: Role)
        ensures
            r.name@ == "VIP"@,
            r.permissions == vip_permissions(),
    {
        Role { id: new_tag(), name: "VIP".to_owned(), permissions: RolePermission {
            can_use_controls: false,
            can_manage_users: false,
            can_add_song: true,
            can_add_moderator: false,
            can_manage_room: false,
        } }
    }

    pub fn new_moderator() -> (r: Role)
        ensures
            r.name@ == "Moderator"@,
            r.permissions == moderator_permissions(),
    {
        Role { id: new_tag(), name: "Moderator".to_owned(), permissions: RolePermission {
            can_use_controls: true,
            can_manage_users: true,
            can_add_song: true,
            can_add_moderator: false,
            can_manage_room: false,
        } }
    }

    pub fn new_admin() -> (r: Role)
        ensures
            r.name@ == "Admin"@,
            r.permissions == admin_permissions(),
    {
        Role { id: new_tag(), name: "Admin".to_owned(), permissions: RolePermission {
            can_use_controls: true,
            can_manage_users: true,
            can_add_song: true,
            can_add_moderator: true,
            can_manage_room: false,
        } }
    }

    pub fn new_owner() -> (r: Role)
        ensures
            r.name@ == "Owner"@,
            r.permissions == owner_permissions(),
    {
        Role { id: new_tag(), name: "Owner".to_owned(), permissions: RolePermission {
            can_use_controls: true,
            can_manage_users: true,
            can_add_song: true,
            can_add_moderator: true,
            can_manage_room: true,
        } }
    }
}

/// No two roles of the table share a display name.
pub open spec fn names_unique(roles: Seq<Role>) -> bool {
    forall|i: int, j: int|
        0 <= i < j < roles.len() ==> roles[i].name@ != roles[j].name@
}

/// The table is ordered from the most powerful role to the least.
pub open spec fn sorted_by_weight_desc(roles: Seq<Role>) -> bool {
    forall|i: int, j: int|
        0 <= i <= j < roles.len() ==> role_weight(#[trigger] roles[i].permissions) >= role_weight(
            #[trigger] roles[j].permissions,
        )
}

/// Some role of the table carries this display name.
pub open spec fn has_role_named(roles: Seq<Role>, name: Seq<char>) -> bool {
    exists|i: int| 0 <= i < roles.len() && #[trigger] roles[i].name@ == name
}

/// Some role of the table carries this tag.
pub open spec fn has_role_id(roles: Seq<Role>, id: u128) -> bool {
    exists|i: int| 0 <= i < roles.len() && #[trigger] roles[i].id == id
}

/// `k` is the position of the first role carrying this tag.
pub open spec fn is_first_id_index(roles: Seq<Role>, id: u128, k: int) -> bool {
    0 <= k < roles.len() && roles[k].id == id && (forall|j: int|
        0 <= j < k ==> roles[j].id != id)
}

/// The first position carrying a tag is unique.
pub proof fn lemma_first_id_index_unique(roles: Seq<Role>, id: u128, k1: int, k2: int)
    requires
        is_first_id_index(roles, id, k1),
        is_first_id_index(roles, id, k2),
    ensures
        k1 == k2,
{
}

/// The shape of the seeded role table.
pub open spec fn is_default_role_table(roles: Seq<Role>) -> bool {
    &&& roles.len() == 5
    &&& roles[0].name@ == "Owner"@ && roles[0].permissions == owner_permissions()
    &&& roles[1].name@ == "Admin"@ && roles[1].permissions == admin_permissions()
    &&& roles[2].name@ == "Moderator"@ && roles[2].permissions == moderator_permissions()
    &&& roles[3].name@ == "VIP"@ && roles[3].permissions == vip_permissions()
    &&& roles[4].name@ == "Guest"@ && roles[4].permissions == guest_permissions()
}

/// Ordered role table. The hierarchy is: most powerful role first.
#[derive(Debug)]
pub struct RoleManager(Vec<Role>);

impl View for RoleManager {
    type V = Seq<Role>;

    closed spec fn view(&self) -> Seq<Role> {
        self.0@
    }
}

impl Clone for RoleManager {
    fn clone(&self) -> (r: Self)
        ensures
            r@ == self@,
    {
        let mut out: Vec<Role> = Vec::new();
        let mut i: usize = 0;
        while i < self.0.len()
            invariant
                i <= self.0.len(),
                out@ == self.0@.take(i as int),
            decreases self.0.len() - i,
        {
            out.push(self.0[i].clone());
            proof {
                assert(out@ =~= self.0@.take(i + 1 as int));
            }
            i = i + 1;
        }
        proof {
            assert(out@ =~= self@);
        }
        RoleManager(out)
    }
}

impl RoleManager {
    pub fn new() -> (r: Self)
        ensures
            r@ == Seq::<Role>::empty(),
    {
        RoleManager(Vec::new())
    }

    pub(crate) fn new_from(roles: Vec<Role>) -> (r: Self)
        ensures
            r@ == roles@,
    {
        RoleManager(roles)
    }

    /// The roles, most powerful first.
    pub fn get_roles(&self) -> (r: &Vec<Role>)
        ensures
            r@ == self@,
    {
        &self.0
    }

    pub fn into_inner(self) -> (r: Vec<Role>)
        ensures
            r@ == self@,
    {
        self.0
    }

    /// First role carrying this display name, if any.
    pub fn get_role_by_name(&self, name: &str) -> (r: Option<&Role>)
        ensures
            match r {
                Some(role) => exists|k: int|
                    0 <= k < self@.len() && *role == self@[k] && #[trigger] self@[k].name@ == name@
                        && (forall|j: int| 0 <= j < k ==> self@[j].name@ != name@),
                None => !has_role_named(self@, name@),
            },
    {
        let owned: String = name.to_owned();
        let mut i: usize = 0;
        while i < self.0.len()
            invariant
                i <= self.0.len(),
                owned@ == name@,
                forall|j: int| 0 <= j < i ==> self.0@[j].name@ != name@,
            decreases self.0.len() - i,
        {
            if self.0[i].name == owned {
                proof {
                    assert(self@[i as int].name@ == name@);
                }
                return Some(&self.0[i]);
            }
            i = i + 1;
        }
        None
    }

    /// First role carrying this tag, if any.
    pub fn get_role_by_id(&self, id: u128) -> (r: Option<&Role>)
        ensures
            match r {
                Some(role) => exists|k: int|
                    0 <= k < self@.len() && *role == self@[k] && #[trigger] self@[k].id == id && (
                    forall|j: int| 0 <= j < k ==> self@[j].id != id),
                None => !has_role_id(self@, id),
            },
    {
        let mut i: usize = 0;
        while i < self.0.len()
            invariant
                i <= self.0.len(),
                forall|j: int| 0 <= j < i ==> self.0@[j].id != id,
            decreases self.0.len() - i,
        {
            if self.0[i].id == id {
                proof {
                    assert(self@[i as int].id == id);
                }
                return Some(&self.0[i]);
            }
            i = i + 1;
        }
        None
    }

    /// Index of the first role carrying this tag, if any.
    fn index_of_role_id(&self, id: u128) -> (r: Option<usize>)
        ensures
            match r {
                Some(k) => is_first_id_index(self@, id, k as int),
                None => !has_role_id(self@, id),
            },
    {
        let mut i: usize = 0;
        while i < self.0.len()
            invariant
                i <= self.0.len(),
                forall|j: int| 0 <= j < i ==> self.0@[j].id != id,
            decreases self.0.len() - i,
        {
            if self.0[i].id == id {
                return Some(i);
            }
            i = i + 1;
        }
        None
    }

    /// Appends a role under a fresh tag, then re-sorts the table in
    /// descending weight; a name already in the table is refused.
    pub fn add_role(&mut self, name: String, permissions: RolePermission) -> (res: Result<
        (),
        RoleError,
    >)
        ensures
            match res {
                Err(e) => e == RoleError::NameAlreadyExists && has_role_named(old(self)@, name@)
                    && *final(self) == *old(self),
                Ok(()) => !has_role_named(old(self)@, name@) && sorted_by_weight_desc(final(self)@)
                    && final(self)@.len() == old(self)@.len() + 1 && (exists|r: Role|
                    r.name@ == name@ && r.permissions == permissions
                        && final(self)@.to_multiset() == old(self)@.to_multiset().insert(r))
                    && (names_unique(old(self)@) ==> names_unique(final(self)@)),
            },
    {
        let owned: String = name.clone();
        let mut i: usize = 0;
        while i < self.0.len()
            invariant
                i <= self.0.len(),
                owned@ == name@,
                forall|j: int| 0 <= j < i ==> self.0@[j].name@ != name@,
            decreases self.0.len() - i,
        {
            if self.0[i].name == owned {
                return Err(RoleError::NameAlreadyExists);
            }
            i = i + 1;
        }
        let role = Role { id: new_tag(), name, permissions };
        let ghost pushed = self.0@.push(role);
        let ghost r = role;
        self.0.push(role);
        proof {
            broadcast use vstd::seq_lib::group_to_multiset_ensures;

            assert(names_unique(old(self)@) ==> names_unique(pushed)) by {
                if names_unique(old(self)@) {
                    assert forall|a: int, b: int|
                        0 <= a < b < pushed.len() implies pushed[a].name@ != pushed[b].name@ by {
                        if b < pushed.len() - 1 {
                            assert(pushed[a] == old(self)@[a]);
                            assert(pushed[b] == old(self)@[b]);
                        } else {
                            assert(pushed[a] == old(self)@[a]);
                            assert(pushed[b] == r);
                        }
                    }
                }
            }
        }
        self.sort();
        proof {
            broadcast use vstd::seq_lib::group_to_multiset_ensures;

            assert(self.0@.to_multiset() == old(self)@.to_multiset().insert(r));
        }
        Ok(())
    }

    /// Removes every role carrying this tag; the rest keep their order.
    pub fn remove_role(&mut self, id: u128)
        ensures
            final(self)@ == old(self)@.filter(|r: Role| r.id != id),
    {
        let mut out: Vec<Role> = Vec::new();
        let mut i: usize = 0;
        while i < self.0.len()
            invariant
                i <= self.0.len(),
                out@ == self.0@.take(i as int).filter(|r: Role| r.id != id),
            decreases self.0.len() - i,
        {
            let ghost prefix = self.0@.take(i as int);
            let ghost next = self.0@.take(i + 1 as int);
            proof {
                assert(next.drop_last() =~= prefix);
                assert(next.last() == self.0@[i as int]);
                reveal(Seq::filter);
            }
            if self.0[i].id != id {
                out.push(self.0[i].clone());
            }
            i = i + 1;
        }
        proof {
            assert(self.0@.take(self.0@.len() as int) =~= self.0@);
        }
        self.0 = out;
    }

    /// Renames the first role carrying this tag and replaces its
    /// permission vector; a name held by a different role is refused, so
    /// names stay unique.
    pub fn edit_role(&mut self, id: u128, name: String, permissions: RolePermission) -> (res:
        Result<(), RoleError>)
        ensures
            !has_role_id(old(self)@, id) ==> res is Ok && *final(self) == *old(self),
            match res {
                Err(e) => e == RoleError::NameAlreadyExists && (exists|k: int, j: int|
                    #[trigger] is_first_id_index(old(self)@, id, k) && 0 <= j < old(self)@.len()
                        && j != k && #[trigger] old(self)@[j].name@ == name@) && *final(self)
                    == *old(self),
                Ok(()) => has_role_id(old(self)@, id) ==> exists|k: int|
                    #[trigger] is_first_id_index(old(self)@, id, k) && (forall|j: int|
                        0 <= j < old(self)@.len() && j != k ==> old(self)@[j].name@ != name@)
                        && final(self)@ == old(self)@.update(
                        k,
                        Role { id, name: name, permissions },
                    ),
            },
            names_unique(old(self)@) ==> names_unique(final(self)@),
    {
        let idx = match self.index_of_role_id(id) {
            None => {
                return Ok(());
            },
            Some(i) => i,
        };
        let owned: String = name.clone();
        let mut i: usize = 0;
        while i < self.0.len()
            invariant
                i <= self.0.len(),
                owned@ == name@,
                is_first_id_index(self.0@, id, idx as int),
                forall|j: int| 0 <= j < i && j != idx as int ==> self.0@[j].name@ != name@,
            decreases self.0.len() - i,
        {
            if i != idx && self.0[i].name == owned {
                proof {
                    assert(is_first_id_index(old(self)@, id, idx as int));
                    assert(old(self)@[i as int].name@ == name@);
                }
                return Err(RoleError::NameAlreadyExists);
            }
            i = i + 1;
        }
        self.0.set(idx, Role { id, name, permissions });
        proof {
            assert(is_first_id_index(old(self)@, id, idx as int));
            assert(self.0@ == old(self)@.update(idx as int, Role { id, name, permissions }));
            if names_unique(old(self)@) {
                assert forall|a: int, b: int|
                    0 <= a < b < self.0@.len() implies self.0@[a].name@ != self.0@[b].name@ by {
                    if a != idx as int && b != idx as int {
                        assert(self.0@[a] == old(self)@[a]);
                        assert(self.0@[b] == old(self)@[b]);
                    } else if a == idx as int {
                        assert(self.0@[b] == old(self)@[b]);
                        assert(old(self)@[b].name@ != name@);
                    } else {
                        assert(self.0@[a] == old(self)@[a]);
                        assert(old(self)@[a].name@ != name@);
                    }
                }
            }
        }
        Ok(())
    }

    /// Swaps two table positions; out-of-range indexes leave the table
    /// unchanged.
    pub fn swap_roles(&mut self, idx1: usize, idx2: usize)
        ensures
            (idx1 >= old(self)@.len() || idx2 >= old(self)@.len()) ==> *final(self) == *old(self),
            (idx1 < old(self)@.len() && idx2 < old(self)@.len()) ==> final(self)@ == old(
                self,
            )@.update(idx1 as int, old(self)@[idx2 as int]).update(
                idx2 as int,
                old(self)@[idx1 as int],
            ),
    {
        if idx1 >= self.0.len() || idx2 >= self.0.len() {
            return ;
        }
        let a = self.0[idx1].clone();
        let b = self.0[idx2].clone();
        self.0.set(idx1, b);
        self.0.set(idx2, a);
    }

    /// Selection sort, most powerful role first. Keeps the table's
    /// contents (as a multiset) and the uniqueness of names.
    fn sort(&mut self)
        ensures
            sorted_by_weight_desc(final(self)@),
            final(self)@.to_multiset() == old(self)@.to_multiset(),
            final(self)@.len() == old(self)@.len(),
            names_unique(old(self)@) ==> names_unique(final(self)@),
    {
        broadcast use vstd::seq_lib::group_to_multiset_ensures;

        let mut rest: Vec<Role> = Vec::new();
        core::mem::swap(&mut rest, &mut self.0);
        let ghost orig = rest@;
        let mut out: Vec<Role> = Vec::new();
        proof {
            assert(out@ + rest@ =~= orig);
        }
        while rest.len() > 0
            invariant
                (out@ + rest@).to_multiset() == orig.to_multiset(),
                out@.len() + rest@.len() == orig.len(),
                names_unique(orig) ==> names_unique(out@ + rest@),
                sorted_by_weight_desc(out@),
                forall|i: int, j: int|
                    0 <= i < out@.len() && 0 <= j < rest@.len() ==> role_weight(
                        #[trigger] out@[i].permissions,
                    ) >= role_weight(#[trigger] rest@[j].permissions),
            decreases rest.len(),
        {
            let mut best: usize = 0;
            let mut k: usize = 1;
            while k < rest.len()
                invariant
                    best < k <= rest.len(),
                    rest.len() > 0,
                    forall|j: int|
                        0 <= j < k ==> role_weight(#[trigger] rest@[j].permissions) <= role_weight(
                            rest@[best as int].permissions,
                        ),
                decreases rest.len() - k,
            {
                if rest[k].weight() > rest[best].weight() {
                    best = k;
                }
                k = k + 1;
            }
            let ghost old_out = out@;
            let ghost old_rest = rest@;
            let ghost b = best as int;
            let picked = rest.remove(best);
            out.push(picked);
            proof {
                lemma_selection_step(old_out, old_rest, b);
                assert((out@ + rest@).to_multiset() =~= (old_out + old_rest).to_multiset());
                assert forall|i: int, j: int|
                    0 <= i < out@.len() && 0 <= j
                        < rest@.len() implies role_weight(#[trigger] out@[i].permissions)
                    >= role_weight(#[trigger] rest@[j].permissions) by {
                    old_rest.remove_ensures(b);
                    assert(rest@[j] == if j < b {
                        old_rest[j]
                    } else {
                        old_rest[j + 1]
                    });
                    if i < out@.len() - 1 {
                        assert(out@[i] == old_out[i]);
                    } else {
                        assert(out@[i] == old_rest[b]);
                    }
                }
                assert(sorted_by_weight_desc(out@)) by {
                    assert forall|i: int, j: int|
                        0 <= i <= j < out@.len() implies role_weight(
                        #[trigger] out@[i].permissions,
                    ) >= role_weight(#[trigger] out@[j].permissions) by {
                        if j < out@.len() - 1 {
                            assert(out@[i] == old_out[i]);
                            assert(out@[j] == old_out[j]);
                        } else if i < out@.len() - 1 {
                            assert(out@[i] == old_out[i]);
                            assert(out@[j] == old_rest[b]);
                        }
                    }
                }
            }
        }
        proof {
            assert(out@ + rest@ =~= out@);
        }
        self.0 = out;
    }
}

/// Where an index of `out.push(rest[b]) + rest.remove(b)` lands inside
/// `out + rest`.
spec fn moved_index(i: int, m: int, b: int) -> int {
    if i < m {
        i
    } else if i == m {
        m + b
    } else if i - m - 1 < b {
        i - 1
    } else {
        i
    }
}

/// Moving one element of `rest` to the end of `out` permutes the
/// concatenation: the multiset is kept, and so is uniqueness of names.
proof fn lemma_selection_step(out: Seq<Role>, rest: Seq<Role>, b: int)
    requires
        0 <= b < rest.len(),
    ensures
        (out.push(rest[b]) + rest.remove(b)).to_multiset() == (out + rest).to_multiset(),
        names_unique(out + rest) ==> names_unique(out.push(rest[b]) + rest.remove(b)),
{
    broadcast use vstd::seq_lib::group_to_multiset_ensures;

    let l1 = out + rest;
    let l2 = out.push(rest[b]) + rest.remove(b);
    let m = out.len() as int;
    rest.remove_ensures(b);
    assert(l2.len() == l1.len());
    assert forall|i: int| 0 <= i < l2.len() implies l2[i] == l1[moved_index(i, m, b)] && 0
        <= moved_index(i, m, b) < l1.len() by {
        if i < m {
            assert(l2[i] == out[i]);
            assert(l1[i] == out[i]);
        } else if i == m {
            assert(l2[i] == rest[b]);
            assert(l1[m + b] == rest[b]);
        } else if i - m - 1 < b {
            assert(l2[i] == rest.remove(b)[i - m - 1]);
            assert(rest.remove(b)[i - m - 1] == rest[i - m - 1]);
            assert(l1[i - 1] == rest[i - m - 1]);
        } else {
            assert(l2[i] == rest.remove(b)[i - m - 1]);
            assert(rest.remove(b)[i - m - 1] == rest[i - m]);
            assert(l1[i] == rest[i - m]);
        }
    }
    if names_unique(l1) {
        assert forall|i: int, j: int| 0 <= i < j < l2.len() implies l2[i].name@ != l2[j].name@ by {
            let gi = moved_index(i, m, b);
            let gj = moved_index(j, m, b);
            assert(gi != gj);
            if gi < gj {
                assert(l1[gi].name@ != l1[gj].name@);
            } else {
                assert(l1[gj].name@ != l1[gi].name@);
            }
        }
    }
    assert((out.push(rest[b])).to_multiset() =~= out.to_multiset().insert(rest[b]));
    assert((rest.remove(b)).to_multiset() =~= rest.to_multiset().remove(rest[b]));
    vstd::seq_lib::lemma_multiset_commutative(out.push(rest[b]), rest.remove(b));
    vstd::seq_lib::lemma_multiset_commutative(out, rest);
    assert(rest.contains(rest[b]));
    assert(rest.to_multiset().count(rest[b]) > 0);
    assert(out.to_multiset().insert(rest[b]).add(rest.to_multiset().remove(rest[b]))
        =~= out.to_multiset().add(rest.to_multiset()));
}

impl Default for RoleManager {
    /// The seeded table: Owner, Admin, Moderator, VIP, Guest, in strictly
    /// decreasing weight.
    fn default() -> (r: Self)
        ensures
            is_default_role_table(r@),
            r@.len() == 5,
            r@[0].name@ == "Owner"@ && r@[0].permissions == owner_permissions(),
            r@[1].name@ == "Admin"@ && r@[1].permissions == admin_permissions(),
            r@[2].name@ == "Moderator"@ && r@[2].permissions == moderator_permissions(),
            r@[3].name@ == "VIP"@ && r@[3].permissions == vip_permissions(),
            r@[4].name@ == "Guest"@ && r@[4].permissions == guest_permissions(),
            forall|i: int, j: int|
                0 <= i < j < 5 ==> role_weight(#[trigger] r@[i].permissions) > role_weight(
                    #[trigger] r@[j].permissions,
                ),
            sorted_by_weight_desc(r@),
            names_unique(r@),
    {
        let mut roles: Vec<Role> = Vec::new();
        roles.push(Role::new_owner());
        roles.push(Role::new_admin());
        roles.push(Role::new_moderator());
        roles.push(Role::new_vip());
        roles.push(Role::new_guest());
        proof {
            reveal_strlit("Owner");
            reveal_strlit("Admin");
            reveal_strlit("Moderator");
            reveal_strlit("VIP");
            reveal_strlit("Guest");
            assert(("Owner"@)[0] != ("Admin"@)[0]);
            assert(("Owner"@)[0] != ("Guest"@)[0]);
            assert(("Admin"@)[0] != ("Guest"@)[0]);
            assert(("Owner"@).len() != ("Moderator"@).len());
            assert(("Owner"@).len() != ("VIP"@).len());
            assert(("Admin"@).len() != ("Moderator"@).len());
            assert(("Admin"@).len() != ("VIP"@).len());
            assert(("Moderator"@).len() != ("VIP"@).len());
            assert(("Moderator"@).len() != ("Guest"@).len());
            assert(("VIP"@).len() != ("Guest"@).len());
        }
        RoleManager(roles)
    }
}

} // verus!
