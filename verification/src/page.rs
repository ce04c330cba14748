//! What the pages of the console show to a signed-in user: each decision is a
//! question to the user's snapshot.

use vstd::prelude::*;
use crate::policy::{required_permission_name, AccessPolicy, Operation, Resource};
use crate::session::SessionContext;
use crate::text::{has_text, same_text};

verus! {

impl SessionContext {
    /// Whether the snapshot holds the permission `name`.
    pub fn is_permission(&self, name: &str) -> (r: bool)
        ensures
            r == self@.permissions.contains(name@),
    {
        has_text(&self.permissions, name)
    }
}

/// The pages that list and edit content are for writers who may read schemas.
pub open spec fn content_visible(permissions: Seq<Seq<char>>) -> bool {
    permissions.contains("writer"@) && permissions.contains("schema::read"@)
}

/// Whether the page that lists the content of a schema is shown.
pub fn content_page_visible(auth: &SessionContext) -> (r: bool)
    ensures
        r == content_visible(auth@.permissions),
{
    auth.is_permission("writer") && auth.is_permission("schema::read")
}

/// Whether the page that edits one entry is shown.
pub fn editor_page_visible(auth: &SessionContext) -> (r: bool)
    ensures
        r == content_visible(auth@.permissions),
{
    auth.is_permission("writer") && auth.is_permission("schema::read")
}

/// Whether the page that lists the schemas is shown.
pub fn schema_page_visible(auth: &SessionContext) -> (r: bool)
    ensures
        r == auth@.permissions.contains("schema::read"@),
{
    auth.is_permission("schema::read")
}

/// Whether the list of a schema offers to add an entry: never for the
/// singles, otherwise to whoever may write the schema's content.
pub fn can_add_content(auth: &SessionContext, list_slug: &str, schema: &Resource) -> (r: bool)
    ensures
        r == (list_slug@ != "singles"@ && auth@.permissions.contains(
            required_permission_name(schema.slug@, schema.is_public, Operation::Write),
        )),
{
    if same_text(list_slug, "singles") {
        false
    } else {
        let name = AccessPolicy::required_permission(schema, Operation::Write);
        auth.is_permission(name.as_str())
    }
}

/// Whether the editor offers to save the entry.
pub fn can_save_content(auth: &SessionContext, schema: &Resource) -> (r: bool)
    ensures
        r == auth@.permissions.contains(
            required_permission_name(schema.slug@, schema.is_public, Operation::Write),
        ),
{
    let name = AccessPolicy::required_permission(schema, Operation::Write);
    auth.is_permission(name.as_str())
}

/// Whether the editor offers to delete the entry: only entries of a
/// collection can be deleted.
pub fn can_delete_content(auth: &SessionContext, schema: &Resource, is_collection: bool) -> (r:
    bool)
    ensures
        r == (is_collection && auth@.permissions.contains(
            required_permission_name(schema.slug@, schema.is_public, Operation::Delete),
        )),
{
    if is_collection {
        let name = AccessPolicy::required_permission(schema, Operation::Delete);
        auth.is_permission(name.as_str())
    } else {
        false
    }
}

/// Whether the editor offers the public storage of the entry.
pub fn storage_visible(auth: &SessionContext) -> (r: bool)
    ensures
        r == auth@.permissions.contains("storage::read"@),
{
    auth.is_permission("storage::read")
}

/// Whether the editor offers the private storage of the entry.
pub fn private_storage_visible(auth: &SessionContext) -> (r: bool)
    ensures
        r == auth@.permissions.contains("private_storage::read"@),
{
    auth.is_permission("private_storage::read")
}

} // verus!
