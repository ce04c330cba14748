//! The records of the access graph and the payloads that create or change them.

use vstd::prelude::*;

verus! {

/// A user as the identity store holds it.
#[derive(Debug)]
pub struct UserModel {
    pub id: u64,
    pub login: String,
    pub password: String,
    pub blocked: bool,
}

/// What a `UserModel` stands for.
pub struct UserView {
    pub id: u64,
    pub login: Seq<char>,
    pub password: Seq<char>,
    pub blocked: bool,
}

impl View for UserModel {
    type V = UserView;

    open spec fn view(&self) -> UserView {
        UserView { id: self.id, login: self.login@, password: self.password@, blocked: self.blocked }
    }
}

impl UserModel {
    /// A copy of this record.
    pub fn duplicate(&self) -> (r: UserModel)
        ensures
            r@ == self@,
    {
        UserModel {
            id: self.id,
            login: self.login.clone(),
            password: self.password.clone(),
            blocked: self.blocked,
        }
    }
}

/// Payload that registers a user.
#[derive(Debug)]
pub struct UserCreateModel {
    pub login: String,
    pub password: String,
}

/// Payload that changes a user's login.
#[derive(Debug)]
pub struct UserUpdateModel {
    pub login: String,
}

/// A role: a unique name that permissions are granted to, and a title for display.
#[derive(Debug)]
pub struct RoleModel {
    pub id: u64,
    pub name: String,
    pub title: String,
    pub created_at: u64,
    pub updated_at: u64,
}

/// What a `RoleModel` stands for.
pub struct RoleView {
    pub id: u64,
    pub name: Seq<char>,
    pub title: Seq<char>,
    pub created_at: u64,
    pub updated_at: u64,
}

impl View for RoleModel {
    type V = RoleView;

    open spec fn view(&self) -> RoleView {
        RoleView {
            id: self.id,
            name: self.name@,
            title: self.title@,
            created_at: self.created_at,
            updated_at: self.updated_at,
        }
    }
}

impl RoleModel {
    /// A copy of this record.
    pub fn duplicate(&self) -> (r: RoleModel)
        ensures
            r@ == self@,
    {
        RoleModel {
            id: self.id,
            name: self.name.clone(),
            title: self.title.clone(),
            created_at: self.created_at,
            updated_at: self.updated_at,
        }
    }
}

/// Payload that creates a role.
#[derive(Debug)]
pub struct RoleCreateModel {
    pub name: String,
    pub title: String,
}

/// Payload that renames or retitles a role.
#[derive(Debug)]
pub struct RoleUpdateModel {
    pub name: String,
    pub title: String,
}

/// A permission: a free-form name that is matched exactly.
#[derive(Debug)]
pub struct PermissionModel {
    pub id: u64,
    pub name: String,
}

/// What a `PermissionModel` stands for.
pub struct PermissionView {
    pub id: u64,
    pub name: Seq<char>,
}

impl View for PermissionModel {
    type V = PermissionView;

    open spec fn view(&self) -> PermissionView {
        PermissionView { id: self.id, name: self.name@ }
    }
}

impl PermissionModel {
    /// A copy of this record.
    pub fn duplicate(&self) -> (r: PermissionModel)
        ensures
            r@ == self@,
    {
        PermissionModel { id: self.id, name: self.name.clone() }
    }
}

/// A group: a unique slug and a title, with who made and last changed it, and when.
#[derive(Debug)]
pub struct GroupModel {
    pub id: u64,
    pub slug: String,
    pub title: String,
    pub created_at: u64,
    pub updated_at: u64,
    pub created_by: String,
    pub updated_by: String,
}

/// What a `GroupModel` stands for.
pub struct GroupView {
    pub id: u64,
    pub slug: Seq<char>,
    pub title: Seq<char>,
    pub created_at: u64,
    pub updated_at: u64,
    pub created_by: Seq<char>,
    pub updated_by: Seq<char>,
}

impl View for GroupModel {
    type V = GroupView;

    open spec fn view(&self) -> GroupView {
        GroupView {
            id: self.id,
            slug: self.slug@,
            title: self.title@,
            created_at: self.created_at,
            updated_at: self.updated_at,
            created_by: self.created_by@,
            updated_by: self.updated_by@,
        }
    }
}

impl GroupModel {
    /// A copy of this record.
    pub fn duplicate(&self) -> (r: GroupModel)
        ensures
            r@ == self@,
    {
        GroupModel {
            id: self.id,
            slug: self.slug.clone(),
            title: self.title.clone(),
            created_at: self.created_at,
            updated_at: self.updated_at,
            created_by: self.created_by.clone(),
            updated_by: self.updated_by.clone(),
        }
    }
}

impl Default for GroupModel {
    /// The empty group: id 0, empty texts, times 0.
    fn default() -> (r: GroupModel)
        ensures
            r@ == (GroupView {
                id: 0,
                slug: Seq::<char>::empty(),
                title: Seq::<char>::empty(),
                created_at: 0,
                updated_at: 0,
                created_by: Seq::<char>::empty(),
                updated_by: Seq::<char>::empty(),
            }),
    {
        GroupModel {
            id: 0,
            slug: String::new(),
            title: String::new(),
            created_at: 0,
            updated_at: 0,
            created_by: String::new(),
            updated_by: String::new(),
        }
    }
}

/// Payload that creates a group.
#[derive(Debug)]
pub struct GroupCreateModel {
    pub title: String,
}

/// Payload that retitles a group.
#[derive(Debug)]
pub struct GroupUpdateModel {
    pub title: String,
}

} // verus!
