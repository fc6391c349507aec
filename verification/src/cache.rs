//! Local relational cache: six entity collections with referential
//! integrity, domain-restricted fields, derived aggregates and per-row
//! sync bookkeeping.
//!
//! The store enforces its invariants at write time, whoever the caller
//! is: foreign keys are checked on insert, deletes cascade or null out
//! dependents declaratively, `role` / `status` are restricted to their
//! enumerated domains, and the derived `message_count` /
//! `last_message_at` / `updated_at` fields are maintained by the write
//! itself, never by caller discipline. Timestamps are supplied by the
//! caller as plain clock readings.

use vstd::prelude::*;

verus! {

/// Who authored a message; the only two admissible roles.
#[derive(Clone, Copy, Debug, PartialEq, Eq, Structural)]
pub enum MessageRole {
    User,
    Assistant,
}

/// Delivery state of a message.
#[derive(Clone, Copy, Debug, PartialEq, Eq, Structural)]
pub enum MessageStatus {
    Sending,
    Streaming,
    Complete,
    Failed,
}

/// Why a write was rejected or a migration refused; the offending write
/// is rejected in full, never partially applied.
#[derive(Clone, Copy, Debug, PartialEq, Eq, Structural)]
pub enum CacheError {
    /// An insert reused an existing primary key.
    DuplicateId,
    /// A row referenced a project that does not exist.
    MissingProject,
    /// A message referenced a conversation that does not exist.
    MissingConversation,
    /// A message role outside the admissible domain.
    InvalidRole,
    /// A message status outside the admissible domain.
    InvalidStatus,
    /// A migration version beyond the next unapplied one.
    MigrationGap,
    /// A migration version the schema does not define.
    UnknownMigration,
}

/// A cached user account.
pub struct UserRow {
    pub id: u64,
    pub email: String,
    pub name: Option<String>,
    pub avatar_url: Option<String>,
    pub created_at: u64,
    pub updated_at: u64,
    pub last_login_at: Option<u64>,
    pub synced_at: Option<u64>,
}

/// A project grouping conversations and files.
pub struct ProjectRow {
    pub id: u64,
    pub name: String,
    pub description: Option<String>,
    pub department: Option<String>,
    pub instructions: Option<String>,
    pub memory_context: Option<String>,
    pub created_at: u64,
    pub updated_at: u64,
    pub synced_at: Option<u64>,
}

/// A conversation; `message_count` and `last_message_at` are derived
/// from the message table and never writable by a caller.
pub struct ConversationRow {
    pub id: u64,
    pub project_id: Option<u64>,
    pub title: String,
    pub created_at: u64,
    pub updated_at: u64,
    pub message_count: u64,
    pub last_message_at: Option<u64>,
    pub synced_at: Option<u64>,
}

/// A message inside a conversation.
pub struct MessageRow {
    pub id: u64,
    pub conversation_id: u64,
    pub role: MessageRole,
    pub content: String,
    pub sources: Option<String>,
    pub created_at: u64,
    pub updated_at: u64,
    pub status: MessageStatus,
    pub synced_at: Option<u64>,
}

/// A file attached to a project.
pub struct ProjectFileRow {
    pub id: u64,
    pub project_id: u64,
    pub filename: String,
    pub file_path: String,
    pub file_size: Option<u64>,
    pub mime_type: Option<String>,
    pub created_at: u64,
    pub updated_at: u64,
    pub synced_at: Option<u64>,
}

/// A key/value setting; values are opaque serialized scalars.
pub struct SettingRow {
    pub key: String,
    pub value: String,
    pub created_at: u64,
    pub updated_at: u64,
}

/// The role named by a caller-supplied string, if it lies in the domain.
pub open spec fn spec_role_of(s: Seq<char>) -> Option<MessageRole> {
    if s == "user"@ {
        Some(MessageRole::User)
    } else if s == "assistant"@ {
        Some(MessageRole::Assistant)
    } else {
        None
    }
}

/// The status named by a caller-supplied string, if it lies in the domain.
pub open spec fn spec_status_of(s: Seq<char>) -> Option<MessageStatus> {
    if s == "sending"@ {
        Some(MessageStatus::Sending)
    } else if s == "streaming"@ {
        Some(MessageStatus::Streaming)
    } else if s == "complete"@ {
        Some(MessageStatus::Complete)
    } else if s == "error"@ {
        Some(MessageStatus::Failed)
    } else {
        None
    }
}

/// A project with this id exists.
pub open spec fn has_project(s: Seq<ProjectRow>, id: u64) -> bool {
    exists|i: int| 0 <= i < s.len() && s[i].id == id
}

/// A conversation with this id exists.
pub open spec fn has_conversation(s: Seq<ConversationRow>, id: u64) -> bool {
    exists|i: int| 0 <= i < s.len() && s[i].id == id
}

/// A message with this id exists.
pub open spec fn has_message(s: Seq<MessageRow>, id: u64) -> bool {
    exists|i: int| 0 <= i < s.len() && s[i].id == id
}

/// A user with this id exists.
pub open spec fn has_user(s: Seq<UserRow>, id: u64) -> bool {
    exists|i: int| 0 <= i < s.len() && s[i].id == id
}

/// A file with this id exists.
pub open spec fn has_file(s: Seq<ProjectFileRow>, id: u64) -> bool {
    exists|i: int| 0 <= i < s.len() && s[i].id == id
}

/// A setting under this key exists.
pub open spec fn has_setting(s: Seq<SettingRow>, k: Seq<char>) -> bool {
    exists|i: int| 0 <= i < s.len() && s[i].key@ == k
}

/// The value stored under a settings key, if any.
pub open spec fn setting_value(s: Seq<SettingRow>, k: Seq<char>) -> Option<Seq<char>>
    decreases s.len(),
{
    if s.len() == 0 {
        None
    } else if s.last().key@ == k {
        Some(s.last().value@)
    } else {
        setting_value(s.drop_last(), k)
    }
}

/// How many messages reference the conversation.
pub open spec fn msg_count(s: Seq<MessageRow>, cid: u64) -> nat
    decreases s.len(),
{
    if s.len() == 0 {
        0
    } else {
        msg_count(s.drop_last(), cid) + (if s.last().conversation_id == cid {
            1nat
        } else {
            0nat
        })
    }
}

/// Creation time of the most recently inserted message of the
/// conversation, if any.
pub open spec fn last_msg_at(s: Seq<MessageRow>, cid: u64) -> Option<u64>
    decreases s.len(),
{
    if s.len() == 0 {
        None
    } else if s.last().conversation_id == cid {
        Some(s.last().created_at)
    } else {
        last_msg_at(s.drop_last(), cid)
    }
}

/// The local cache. All six collections live behind the write
/// operations, which preserve `wf` — the conjunction of every schema
/// invariant.
pub struct Cache {
    pub(crate) schema_version: u64,
    pub(crate) users: Vec<UserRow>,
    pub(crate) projects: Vec<ProjectRow>,
    pub(crate) conversations: Vec<ConversationRow>,
    pub(crate) messages: Vec<MessageRow>,
    pub(crate) project_files: Vec<ProjectFileRow>,
    pub(crate) settings: Vec<SettingRow>,
}

impl Cache {
    /// Applied schema version; zero before any migration.
    pub closed spec fn spec_version(&self) -> u64 {
        self.schema_version
    }

    pub closed spec fn users_view(&self) -> Seq<UserRow> {
        self.users@
    }

    pub closed spec fn projects_view(&self) -> Seq<ProjectRow> {
        self.projects@
    }

    pub closed spec fn conversations_view(&self) -> Seq<ConversationRow> {
        self.conversations@
    }

    pub closed spec fn messages_view(&self) -> Seq<MessageRow> {
        self.messages@
    }

    pub closed spec fn files_view(&self) -> Seq<ProjectFileRow> {
        self.project_files@
    }

    pub closed spec fn settings_view(&self) -> Seq<SettingRow> {
        self.settings@
    }

    /// Every schema invariant: unique keys, referential integrity, and
    /// correctness of the derived conversation aggregates.
    pub open spec fn wf(&self) -> bool {
        &&& (forall|i: int, j: int|
            0 <= i < j < self.users_view().len() ==> self.users_view()[i].id
                != self.users_view()[j].id)
        &&& (forall|i: int, j: int|
            0 <= i < j < self.projects_view().len() ==> self.projects_view()[i].id
                != self.projects_view()[j].id)
        &&& (forall|i: int, j: int|
            0 <= i < j < self.conversations_view().len() ==> self.conversations_view()[i].id
                != self.conversations_view()[j].id)
        &&& (forall|i: int, j: int|
            0 <= i < j < self.messages_view().len() ==> self.messages_view()[i].id
                != self.messages_view()[j].id)
        &&& (forall|i: int, j: int|
            0 <= i < j < self.files_view().len() ==> self.files_view()[i].id
                != self.files_view()[j].id)
        &&& (forall|i: int, j: int|
            0 <= i < j < self.settings_view().len() ==> self.settings_view()[i].key@
                != self.settings_view()[j].key@)
        &&& (forall|i: int|
            0 <= i < self.conversations_view().len() ==> ((
            #[trigger] self.conversations_view()[i].project_id) matches Some(p) ==> has_project(
                self.projects_view(),
                p,
            )))
        &&& (forall|i: int|
            0 <= i < self.messages_view().len() ==> has_conversation(
                self.conversations_view(),
                #[trigger] self.messages_view()[i].conversation_id,
            ))
        &&& (forall|i: int|
            0 <= i < self.files_view().len() ==> has_project(
                self.projects_view(),
                #[trigger] self.files_view()[i].project_id,
            ))
        &&& (forall|i: int|
            0 <= i < self.conversations_view().len()
                ==> (#[trigger] self.conversations_view()[i].message_count) as nat == msg_count(
                self.messages_view(),
                self.conversations_view()[i].id,
            ))
        &&& (forall|i: int|
            0 <= i < self.conversations_view().len()
                ==> (#[trigger] self.conversations_view()[i].last_message_at) == last_msg_at(
                self.messages_view(),
                self.conversations_view()[i].id,
            ))
    }

    /// An empty cache, before any migration: version zero, no rows.
    pub fn new() -> (c: Cache)
        ensures
            c.wf(),
            c.spec_version() == 0,
            c.users_view() == Seq::<UserRow>::empty(),
            c.projects_view() == Seq::<ProjectRow>::empty(),
            c.conversations_view() == Seq::<ConversationRow>::empty(),
            c.messages_view() == Seq::<MessageRow>::empty(),
            c.files_view() == Seq::<ProjectFileRow>::empty(),
            c.settings_view() == Seq::<SettingRow>::empty(),
    {
        Cache {
            schema_version: 0,
            users: Vec::new(),
            projects: Vec::new(),
            conversations: Vec::new(),
            messages: Vec::new(),
            project_files: Vec::new(),
            settings: Vec::new(),
        }
    }

    fn find_project(&self, id: u64) -> (r: Option<usize>)
        ensures
            match r {
                Some(i) => i < self.projects_view().len() && self.projects_view()[i as int].id
                    == id,
                None => !has_project(self.projects_view(), id),
            },
    {
        let n = self.projects.len();
        for i in 0..n
            invariant
                n == self.projects_view().len(),
                forall|j: int| 0 <= j < i ==> self.projects_view()[j].id != id,
        {
            if self.projects[i].id == id {
                return Some(i);
            }
        }
        None
    }

    fn find_conversation(&self, id: u64) -> (r: Option<usize>)
        ensures
            match r {
                Some(i) => i < self.conversations_view().len()
                    && self.conversations_view()[i as int].id == id,
                None => !has_conversation(self.conversations_view(), id),
            },
    {
        let n = self.conversations.len();
        for i in 0..n
            invariant
                n == self.conversations_view().len(),
                forall|j: int| 0 <= j < i ==> self.conversations_view()[j].id != id,
        {
            if self.conversations[i].id == id {
                return Some(i);
            }
        }
        None
    }

    fn find_message(&self, id: u64) -> (r: Option<usize>)
        ensures
            match r {
                Some(i) => i < self.messages_view().len() && self.messages_view()[i as int].id
                    == id,
                None => !has_message(self.messages_view(), id),
            },
    {
        let n = self.messages.len();
        for i in 0..n
            invariant
                n == self.messages_view().len(),
                forall|j: int| 0 <= j < i ==> self.messages_view()[j].id != id,
        {
            if self.messages[i].id == id {
                return Some(i);
            }
        }
        None
    }

    fn find_user(&self, id: u64) -> (r: Option<usize>)
        ensures
            match r {
                Some(i) => i < self.users_view().len() && self.users_view()[i as int].id == id,
                None => !has_user(self.users_view(), id),
            },
    {
        let n = self.users.len();
        for i in 0..n
            invariant
                n == self.users_view().len(),
                forall|j: int| 0 <= j < i ==> self.users_view()[j].id != id,
        {
            if self.users[i].id == id {
                return Some(i);
            }
        }
        None
    }

    fn find_file(&self, id: u64) -> (r: Option<usize>)
        ensures
            match r {
                Some(i) => i < self.files_view().len() && self.files_view()[i as int].id == id,
                None => !has_file(self.files_view(), id),
            },
    {
        let n = self.project_files.len();
        for i in 0..n
            invariant
                n == self.files_view().len(),
                forall|j: int| 0 <= j < i ==> self.files_view()[j].id != id,
        {
            if self.project_files[i].id == id {
                return Some(i);
            }
        }
        None
    }

    /// Inserts a user row; both timestamps start at `now`, the sync
    /// marker starts clear (locally dirty).
    pub fn insert_user(
        &mut self,
        id: u64,
        email: String,
        name: Option<String>,
        avatar_url: Option<String>,
        now: u64,
    ) -> (r: Result<(), CacheError>)
        requires
            old(self).wf(),
        ensures
            final(self).wf(),
            has_user(old(self).users_view(), id) ==> r == Err::<(), CacheError>(
                CacheError::DuplicateId,
            ) && *final(self) == *old(self),
            !has_user(old(self).users_view(), id) ==> r == Ok::<(), CacheError>(())
                && final(self).users_view() == old(self).users_view().push(
                UserRow {
                    id,
                    email,
                    name,
                    avatar_url,
                    created_at: now,
                    updated_at: now,
                    last_login_at: None,
                    synced_at: None,
                },
            ) && final(self).projects_view() == old(self).projects_view()
                && final(self).conversations_view() == old(self).conversations_view()
                && final(self).messages_view() == old(self).messages_view()
                && final(self).files_view() == old(self).files_view()
                && final(self).settings_view() == old(self).settings_view()
                && final(self).spec_version() == old(self).spec_version(),
    {
        if self.find_user(id).is_some() {
            return Err(CacheError::DuplicateId);
        }
        self.users.push(
            UserRow {
                id,
                email,
                name,
                avatar_url,
                created_at: now,
                updated_at: now,
                last_login_at: None,
                synced_at: None,
            },
        );
        proof {
            assert(self.users_view().drop_last() =~= old(self).users_view());
            assert(self.settings_view() == old(self).settings_view());
            lemma_distinct_settings_carry(old(self).settings_view(), self.settings_view());
        }
        Ok(())
    }

    /// Inserts a project row.
    pub fn insert_project(
        &mut self,
        id: u64,
        name: String,
        description: Option<String>,
        department: Option<String>,
        now: u64,
    ) -> (r: Result<(), CacheError>)
        requires
            old(self).wf(),
        ensures
            final(self).wf(),
            has_project(old(self).projects_view(), id) ==> r == Err::<(), CacheError>(
                CacheError::DuplicateId,
            ) && *final(self) == *old(self),
            !has_project(old(self).projects_view(), id) ==> r == Ok::<(), CacheError>(())
                && final(self).projects_view() == old(self).projects_view().push(
                ProjectRow {
                    id,
                    name,
                    description,
                    department,
                    instructions: None,
                    memory_context: None,
                    created_at: now,
                    updated_at: now,
                    synced_at: None,
                },
            ) && final(self).users_view() == old(self).users_view()
                && final(self).conversations_view() == old(self).conversations_view()
                && final(self).messages_view() == old(self).messages_view()
                && final(self).files_view() == old(self).files_view()
                && final(self).settings_view() == old(self).settings_view()
                && final(self).spec_version() == old(self).spec_version(),
    {
        if self.find_project(id).is_some() {
            return Err(CacheError::DuplicateId);
        }
        self.projects.push(
            ProjectRow {
                id,
                name,
                description,
                department,
                instructions: None,
                memory_context: None,
                created_at: now,
                updated_at: now,
                synced_at: None,
            },
        );
        proof {
            assert(self.projects_view().drop_last() =~= old(self).projects_view());
            lemma_distinct_settings_carry(old(self).settings_view(), self.settings_view());
            assert forall|i: int| 0 <= i < self.conversations_view().len() implies (
            #[trigger] self.conversations_view()[i].project_id) matches Some(p) ==> has_project(
                self.projects_view(),
                p,
            ) by {
                if self.conversations_view()[i].project_id is Some {
                    let q = self.conversations_view()[i].project_id->0;
                    let w = choose|w: int|
                        0 <= w < old(self).projects_view().len() && old(self).projects_view()[w].id
                            == q;
                    assert(self.projects_view()[w].id == q);
                }
            }
            assert forall|i: int| 0 <= i < self.files_view().len() implies has_project(
                self.projects_view(),
                #[trigger] self.files_view()[i].project_id,
            ) by {
                let p = self.files_view()[i].project_id;
                let w = choose|w: int|
                    0 <= w < old(self).projects_view().len() && old(self).projects_view()[w].id
                        == p;
                assert(self.projects_view()[w].id == p);
            }
        }
        Ok(())
    }

    /// Inserts a conversation row; a supplied project reference must
    /// exist, and the derived aggregates start empty.
    pub fn insert_conversation(
        &mut self,
        id: u64,
        project_id: Option<u64>,
        title: String,
        now: u64,
    ) -> (r: Result<(), CacheError>)
        requires
            old(self).wf(),
        ensures
            final(self).wf(),
            has_conversation(old(self).conversations_view(), id) ==> r == Err::<(), CacheError>(
                CacheError::DuplicateId,
            ) && *final(self) == *old(self),
            !has_conversation(old(self).conversations_view(), id) && (project_id matches Some(p)
                && !has_project(old(self).projects_view(), p)) ==> r == Err::<(), CacheError>(
                CacheError::MissingProject,
            ) && *final(self) == *old(self),
            !has_conversation(old(self).conversations_view(), id) && (project_id matches Some(p)
                ==> has_project(old(self).projects_view(), p)) ==> r == Ok::<(), CacheError>(())
                && final(self).conversations_view() == old(self).conversations_view().push(
                ConversationRow {
                    id,
                    project_id,
                    title,
                    created_at: now,
                    updated_at: now,
                    message_count: 0,
                    last_message_at: None,
                    synced_at: None,
                },
            ) && final(self).users_view() == old(self).users_view()
                && final(self).projects_view() == old(self).projects_view()
                && final(self).messages_view() == old(self).messages_view()
                && final(self).files_view() == old(self).files_view()
                && final(self).settings_view() == old(self).settings_view()
                && final(self).spec_version() == old(self).spec_version(),
    {
        if self.find_conversation(id).is_some() {
            return Err(CacheError::DuplicateId);
        }
        if let Some(p) = project_id {
            if self.find_project(p).is_none() {
                return Err(CacheError::MissingProject);
            }
        }
        self.conversations.push(
            ConversationRow {
                id,
                project_id,
                title,
                created_at: now,
                updated_at: now,
                message_count: 0,
                last_message_at: None,
                synced_at: None,
            },
        );
        proof {
            let s0 = old(self).conversations_view();
            let s1 = self.conversations_view();
            assert(s1.drop_last() =~= s0);
            lemma_distinct_settings_carry(old(self).settings_view(), self.settings_view());
            assert forall|i: int|
                0 <= i < self.messages_view().len() implies (
            #[trigger] self.messages_view()[i].conversation_id) != id by {
                assert(has_conversation(s0, self.messages_view()[i].conversation_id));
            }
            lemma_count_of_unreferenced(self.messages_view(), id);
            assert forall|i: int| 0 <= i < s1.len() implies (
            #[trigger] s1[i].message_count) as nat == msg_count(self.messages_view(), s1[i].id)
                && s1[i].last_message_at == last_msg_at(self.messages_view(), s1[i].id) by {
                if i < s0.len() {
                    assert(s1[i] == s0[i]);
                } else {
                    assert(s1[i].id == id);
                }
            }
        }
        Ok(())
    }

    /// Inserts a project file; the referenced project must exist, and
    /// it goes with the project when the project is deleted.
    pub fn insert_project_file(
        &mut self,
        id: u64,
        project_id: u64,
        filename: String,
        file_path: String,
        file_size: Option<u64>,
        mime_type: Option<String>,
        now: u64,
    ) -> (r: Result<(), CacheError>)
        requires
            old(self).wf(),
        ensures
            final(self).wf(),
            has_file(old(self).files_view(), id) ==> r == Err::<(), CacheError>(
                CacheError::DuplicateId,
            ) && *final(self) == *old(self),
            !has_file(old(self).files_view(), id) && !has_project(
                old(self).projects_view(),
                project_id,
            ) ==> r == Err::<(), CacheError>(CacheError::MissingProject) && *final(self) == *old(
                self,
            ),
            !has_file(old(self).files_view(), id) && has_project(
                old(self).projects_view(),
                project_id,
            ) ==> r == Ok::<(), CacheError>(()) && final(self).files_view() == old(
                self,
            ).files_view().push(
                ProjectFileRow {
                    id,
                    project_id,
                    filename,
                    file_path,
                    file_size,
                    mime_type,
                    created_at: now,
                    updated_at: now,
                    synced_at: None,
                },
            ) && final(self).users_view() == old(self).users_view()
                && final(self).projects_view() == old(self).projects_view()
                && final(self).conversations_view() == old(self).conversations_view()
                && final(self).messages_view() == old(self).messages_view()
                && final(self).settings_view() == old(self).settings_view()
                && final(self).spec_version() == old(self).spec_version(),
    {
        if self.find_file(id).is_some() {
            return Err(CacheError::DuplicateId);
        }
        if self.find_project(project_id).is_none() {
            return Err(CacheError::MissingProject);
        }
        self.project_files.push(
            ProjectFileRow {
                id,
                project_id,
                filename,
                file_path,
                file_size,
                mime_type,
                created_at: now,
                updated_at: now,
                synced_at: None,
            },
        );
        proof {
            assert(self.files_view().drop_last() =~= old(self).files_view());
            lemma_distinct_settings_carry(old(self).settings_view(), self.settings_view());
            assert forall|i: int| 0 <= i < self.files_view().len() implies has_project(
                self.projects_view(),
                #[trigger] self.files_view()[i].project_id,
            ) by {
                if i < old(self).files_view().len() {
                    assert(self.files_view()[i] == old(self).files_view()[i]);
                    assert(has_project(self.projects_view(), old(self).files_view()[i].project_id));
                } else {
                    assert(self.files_view()[i].project_id == project_id);
                }
            }
        }
        Ok(())
    }

    /// Inserts a message; the referenced conversation must exist, the
    /// role and status strings must lie in their domains, and the write
    /// itself advances the conversation's derived aggregates — the
    /// message and the aggregate update are one atomic unit.
    pub fn insert_message(
        &mut self,
        id: u64,
        conversation_id: u64,
        role: &str,
        content: String,
        sources: Option<String>,
        status: &str,
        now: u64,
    ) -> (r: Result<(), CacheError>)
        requires
            old(self).wf(),
        ensures
            final(self).wf(),
            ({
                let msgs0 = old(self).messages_view();
                let convs0 = old(self).conversations_view();
                if has_message(msgs0, id) {
                    r == Err::<(), CacheError>(CacheError::DuplicateId) && *final(self) == *old(
                        self,
                    )
                } else if !has_conversation(convs0, conversation_id) {
                    r == Err::<(), CacheError>(CacheError::MissingConversation) && *final(self)
                        == *old(self)
                } else if spec_role_of(role@) is None {
                    r == Err::<(), CacheError>(CacheError::InvalidRole) && *final(self) == *old(
                        self,
                    )
                } else if spec_status_of(status@) is None {
                    r == Err::<(), CacheError>(CacheError::InvalidStatus) && *final(self) == *old(
                        self,
                    )
                } else {
                    r == Ok::<(), CacheError>(()) && final(self).messages_view() == msgs0.push(
                        MessageRow {
                            id,
                            conversation_id,
                            role: spec_role_of(role@)->0,
                            content,
                            sources,
                            created_at: now,
                            updated_at: now,
                            status: spec_status_of(status@)->0,
                            synced_at: None,
                        },
                    ) && final(self).conversations_view() == bump_in(convs0, conversation_id, now)
                        && final(self).users_view() == old(self).users_view()
                        && final(self).projects_view() == old(self).projects_view()
                        && final(self).files_view() == old(self).files_view()
                        && final(self).settings_view() == old(self).settings_view()
                        && final(self).spec_version() == old(self).spec_version()
                }
            }),
    {
        if self.find_message(id).is_some() {
            return Err(CacheError::DuplicateId);
        }
        let k = match self.find_conversation(conversation_id) {
            Some(k) => k,
            None => {
                return Err(CacheError::MissingConversation);
            },
        };
        let role_value = match parse_role(role) {
            Some(x) => x,
            None => {
                return Err(CacheError::InvalidRole);
            },
        };
        let status_value = match parse_status(status) {
            Some(x) => x,
            None => {
                return Err(CacheError::InvalidStatus);
            },
        };
        let ghost msgs0 = self.messages_view();
        let ghost convs0 = self.conversations_view();
        self.messages.push(
            MessageRow {
                id,
                conversation_id,
                role: role_value,
                content,
                sources,
                created_at: now,
                updated_at: now,
                status: status_value,
                synced_at: None,
            },
        );
        let n = self.messages.len();
        proof {
            assert(self.messages_view().drop_last() =~= msgs0);
            lemma_msg_count_le_len(msgs0, conversation_id);
            assert(msgs0.len() < n <= usize::MAX);
        }
        let old_count = self.conversations[k].message_count;
        proof {
            assert(old_count as nat == msg_count(msgs0, conversation_id));
            assert(old_count < u64::MAX);
        }
        self.conversations[k].message_count = old_count + 1;
        self.conversations[k].last_message_at = Some(now);
        self.conversations[k].updated_at = now;
        proof {
            let m = self.messages_view().last();
            let s1 = self.conversations_view();
            assert(s1 =~= bump_in(convs0, conversation_id, now)) by {
                assert forall|i: int| 0 <= i < s1.len() implies s1[i] == bump_in(
                    convs0,
                    conversation_id,
                    now,
                )[i] by {
                    if i != k {
                        assert(convs0[i].id != conversation_id);
                    }
                }
            }
            lemma_distinct_settings_carry(old(self).settings_view(), self.settings_view());
            assert forall|x: u64|
                has_conversation(s1, x) == has_conversation(convs0, x) by {
                if has_conversation(convs0, x) {
                    let w = choose|w: int| 0 <= w < convs0.len() && convs0[w].id == x;
                    assert(s1[w].id == x);
                }
                if has_conversation(s1, x) {
                    let w = choose|w: int| 0 <= w < s1.len() && s1[w].id == x;
                    assert(convs0[w].id == x);
                }
            }
            assert forall|i: int| 0 <= i < self.messages_view().len() implies has_conversation(
                s1,
                #[trigger] self.messages_view()[i].conversation_id,
            ) by {
                if i < msgs0.len() {
                    assert(self.messages_view()[i] == msgs0[i]);
                    assert(has_conversation(convs0, msgs0[i].conversation_id));
                } else {
                    assert(self.messages_view()[i].conversation_id == conversation_id);
                    assert(has_conversation(convs0, conversation_id));
                }
            }
            assert forall|i: int| 0 <= i < s1.len() implies ((
            #[trigger] s1[i].project_id) matches Some(p) ==> has_project(
                self.projects_view(),
                p,
            )) by {
                assert(s1[i].project_id == convs0[i].project_id);
            }
            assert forall|i: int| 0 <= i < s1.len() implies (#[trigger] s1[i].message_count) as nat
                == msg_count(self.messages_view(), s1[i].id) && s1[i].last_message_at
                == last_msg_at(self.messages_view(), s1[i].id) by {
                lemma_msg_count_push(msgs0, m, s1[i].id);
                if i != k {
                    assert(convs0[i].id != conversation_id);
                    assert(s1[i] == convs0[i]);
                } else {
                    assert(s1[k as int].id == conversation_id);
                }
            }
        }
        Ok(())
    }

    /// Deletes a conversation and, in the same atomic unit, every
    /// message that referenced it (cascade); deleting an absent
    /// conversation is a no-op. Returns whether a row was deleted.
    pub fn delete_conversation(&mut self, id: u64) -> (r: bool)
        requires
            old(self).wf(),
        ensures
            final(self).wf(),
            r == has_conversation(old(self).conversations_view(), id),
            final(self).conversations_view() == without_conversation(
                old(self).conversations_view(),
                id,
            ),
            final(self).messages_view() == msgs_outside(old(self).messages_view(), id),
            final(self).users_view() == old(self).users_view(),
            final(self).projects_view() == old(self).projects_view(),
            final(self).files_view() == old(self).files_view(),
            final(self).settings_view() == old(self).settings_view(),
            final(self).spec_version() == old(self).spec_version(),
    {
        let found = self.find_conversation(id).is_some();
        let ghost convs0 = self.conversations_view();
        let ghost msgs0 = self.messages_view();

        let mut i: usize = 0;
        let ghost mut j: int = 0;
        while i < self.conversations.len()
            invariant
                0 <= j <= convs0.len(),
                self.conversations_view() == without_conversation(convs0.take(j), id)
                    + convs0.skip(j),
                i as int == without_conversation(convs0.take(j), id).len(),
                self.messages_view() == msgs0,
                self.users_view() == old(self).users_view(),
                self.projects_view() == old(self).projects_view(),
                self.files_view() == old(self).files_view(),
                self.settings_view() == old(self).settings_view(),
                self.spec_version() == old(self).spec_version(),
            decreases convs0.len() - j,
        {
            proof {
                assert(convs0.skip(j).len() > 0);
                assert(self.conversations_view()[i as int] == convs0.skip(j)[0]);
                assert(convs0.skip(j)[0] == convs0[j]);
                assert(convs0.take(j + 1).drop_last() =~= convs0.take(j));
                assert(convs0.take(j + 1).last() == convs0[j]);
            }
            if self.conversations[i].id == id {
                self.conversations.remove(i);
                proof {
                    assert(self.conversations_view() =~= without_conversation(
                        convs0.take(j + 1),
                        id,
                    ) + convs0.skip(j + 1));
                    j = j + 1;
                }
            } else {
                i = i + 1;
                proof {
                    assert(self.conversations_view() =~= without_conversation(
                        convs0.take(j + 1),
                        id,
                    ) + convs0.skip(j + 1));
                    j = j + 1;
                }
            }
        }
        proof {
            assert(convs0.skip(j).len() == 0);
            assert(j == convs0.len());
            assert(convs0.take(j) =~= convs0);
        }

        let mut i2: usize = 0;
        let ghost mut j2: int = 0;
        while i2 < self.messages.len()
            invariant
                0 <= j2 <= msgs0.len(),
                self.messages_view() == msgs_outside(msgs0.take(j2), id) + msgs0.skip(j2),
                i2 as int == msgs_outside(msgs0.take(j2), id).len(),
                self.conversations_view() == without_conversation(convs0, id),
                self.users_view() == old(self).users_view(),
                self.projects_view() == old(self).projects_view(),
                self.files_view() == old(self).files_view(),
                self.settings_view() == old(self).settings_view(),
                self.spec_version() == old(self).spec_version(),
            decreases msgs0.len() - j2,
        {
            proof {
                assert(msgs0.skip(j2).len() > 0);
                assert(self.messages_view()[i2 as int] == msgs0.skip(j2)[0]);
                assert(msgs0.skip(j2)[0] == msgs0[j2]);
                assert(msgs0.take(j2 + 1).drop_last() =~= msgs0.take(j2));
                assert(msgs0.take(j2 + 1).last() == msgs0[j2]);
            }
            if self.messages[i2].conversation_id == id {
                self.messages.remove(i2);
                proof {
                    assert(self.messages_view() =~= msgs_outside(msgs0.take(j2 + 1), id)
                        + msgs0.skip(j2 + 1));
                    j2 = j2 + 1;
                }
            } else {
                i2 = i2 + 1;
                proof {
                    assert(self.messages_view() =~= msgs_outside(msgs0.take(j2 + 1), id)
                        + msgs0.skip(j2 + 1));
                    j2 = j2 + 1;
                }
            }
        }
        proof {
            assert(msgs0.skip(j2).len() == 0);
            assert(j2 == msgs0.len());
            assert(msgs0.take(j2) =~= msgs0);

            let convs1 = self.conversations_view();
            let msgs1 = self.messages_view();
            lemma_without_conversation_distinct(convs0, id);
            lemma_msgs_outside_distinct(msgs0, id);
            lemma_distinct_settings_carry(old(self).settings_view(), self.settings_view());
            assert forall|i: int| 0 <= i < msgs1.len() implies has_conversation(
                convs1,
                #[trigger] msgs1[i].conversation_id,
            ) by {
                let m = msgs1[i];
                assert(msgs1.contains(m));
                lemma_cascade_membership(msgs0, id, m);
                let w = choose|w: int| 0 <= w < msgs0.len() && msgs0[w] == m;
                assert(has_conversation(convs0, m.conversation_id));
                let b = choose|b: int| 0 <= b < convs0.len() && convs0[b].id
                    == m.conversation_id;
                lemma_without_conversation_membership(convs0, id, convs0[b]);
                assert(convs0.contains(convs0[b]));
                assert(convs1.contains(convs0[b]));
                let w2 = choose|w2: int| 0 <= w2 < convs1.len() && convs1[w2] == convs0[b];
                assert(convs1[w2].id == m.conversation_id);
            }
            assert forall|i: int| 0 <= i < convs1.len() implies ((
            #[trigger] convs1[i].project_id) matches Some(p) ==> has_project(
                self.projects_view(),
                p,
            )) by {
                let c = convs1[i];
                assert(convs1.contains(c));
                lemma_without_conversation_membership(convs0, id, c);
                let w = choose|w: int| 0 <= w < convs0.len() && convs0[w] == c;
            }
            assert forall|i: int| 0 <= i < convs1.len() implies (
            #[trigger] convs1[i].message_count) as nat == msg_count(msgs1, convs1[i].id) by {
                let c = convs1[i];
                assert(convs1.contains(c));
                lemma_without_conversation_membership(convs0, id, c);
                let w = choose|w: int| 0 <= w < convs0.len() && convs0[w] == c;
                lemma_cascade_counts(msgs0, id, c.id);
            }
            assert forall|i: int| 0 <= i < convs1.len() implies (
            #[trigger] convs1[i].last_message_at) == last_msg_at(msgs1, convs1[i].id) by {
                let c = convs1[i];
                assert(convs1.contains(c));
                lemma_without_conversation_membership(convs0, id, c);
                let w = choose|w: int| 0 <= w < convs0.len() && convs0[w] == c;
                lemma_cascade_counts(msgs0, id, c.id);
            }
        }
        found
    }

    /// Deletes a project: its files are deleted with it (cascade) while
    /// conversations that referenced it survive with the reference
    /// cleared (set null). Returns whether a row was deleted.
    pub fn delete_project(&mut self, id: u64, now: u64) -> (r: bool)
        requires
            old(self).wf(),
        ensures
            final(self).wf(),
            r == has_project(old(self).projects_view(), id),
            final(self).projects_view() == without_project(old(self).projects_view(), id),
            final(self).conversations_view() == unlink_project(
                old(self).conversations_view(),
                id,
                now,
            ),
            final(self).files_view() == files_outside(old(self).files_view(), id),
            final(self).users_view() == old(self).users_view(),
            final(self).messages_view() == old(self).messages_view(),
            final(self).settings_view() == old(self).settings_view(),
            final(self).spec_version() == old(self).spec_version(),
    {
        let found = self.find_project(id).is_some();
        let ghost projs0 = self.projects_view();
        let ghost convs0 = self.conversations_view();
        let ghost files0 = self.files_view();

        let mut i: usize = 0;
        let ghost mut j: int = 0;
        while i < self.projects.len()
            invariant
                0 <= j <= projs0.len(),
                self.projects_view() == without_project(projs0.take(j), id) + projs0.skip(j),
                i as int == without_project(projs0.take(j), id).len(),
                self.conversations_view() == convs0,
                self.files_view() == files0,
                self.users_view() == old(self).users_view(),
                self.messages_view() == old(self).messages_view(),
                self.settings_view() == old(self).settings_view(),
                self.spec_version() == old(self).spec_version(),
            decreases projs0.len() - j,
        {
            proof {
                assert(projs0.skip(j).len() > 0);
                assert(self.projects_view()[i as int] == projs0.skip(j)[0]);
                assert(projs0.skip(j)[0] == projs0[j]);
                assert(projs0.take(j + 1).drop_last() =~= projs0.take(j));
                assert(projs0.take(j + 1).last() == projs0[j]);
            }
            if self.projects[i].id == id {
                self.projects.remove(i);
                proof {
                    assert(self.projects_view() =~= without_project(projs0.take(j + 1), id)
                        + projs0.skip(j + 1));
                    j = j + 1;
                }
            } else {
                i = i + 1;
                proof {
                    assert(self.projects_view() =~= without_project(projs0.take(j + 1), id)
                        + projs0.skip(j + 1));
                    j = j + 1;
                }
            }
        }
        proof {
            assert(projs0.skip(j).len() == 0);
            assert(projs0.take(j) =~= projs0);
        }

        let n = self.conversations.len();
        let mut k: usize = 0;
        while k < n
            invariant
                k <= n,
                n == self.conversations_view().len(),
                convs0.len() == n,
                forall|a: int|
                    0 <= a < k ==> #[trigger] self.conversations_view()[a] == unlinked(
                        convs0[a],
                        id,
                        now,
                    ),
                forall|a: int| k <= a < n ==> #[trigger] self.conversations_view()[a] == convs0[a],
                self.projects_view() == without_project(projs0, id),
                self.files_view() == files0,
                self.users_view() == old(self).users_view(),
                self.messages_view() == old(self).messages_view(),
                self.settings_view() == old(self).settings_view(),
                self.spec_version() == old(self).spec_version(),
            decreases n - k,
        {
            let is_linked = match self.conversations[k].project_id {
                Some(q) => q == id,
                None => false,
            };
            if is_linked {
                self.conversations[k].project_id = None;
                self.conversations[k].updated_at = now;
            }
            k = k + 1;
        }
        proof {
            assert(self.conversations_view() =~= unlink_project(convs0, id, now));
        }

        let mut i2: usize = 0;
        let ghost mut j2: int = 0;
        while i2 < self.project_files.len()
            invariant
                0 <= j2 <= files0.len(),
                self.files_view() == files_outside(files0.take(j2), id) + files0.skip(j2),
                i2 as int == files_outside(files0.take(j2), id).len(),
                self.projects_view() == without_project(projs0, id),
                self.conversations_view() == unlink_project(convs0, id, now),
                self.users_view() == old(self).users_view(),
                self.messages_view() == old(self).messages_view(),
                self.settings_view() == old(self).settings_view(),
                self.spec_version() == old(self).spec_version(),
            decreases files0.len() - j2,
        {
            proof {
                assert(files0.skip(j2).len() > 0);
                assert(self.files_view()[i2 as int] == files0.skip(j2)[0]);
                assert(files0.skip(j2)[0] == files0[j2]);
                assert(files0.take(j2 + 1).drop_last() =~= files0.take(j2));
                assert(files0.take(j2 + 1).last() == files0[j2]);
            }
            if self.project_files[i2].project_id == id {
                self.project_files.remove(i2);
                proof {
                    assert(self.files_view() =~= files_outside(files0.take(j2 + 1), id)
                        + files0.skip(j2 + 1));
                    j2 = j2 + 1;
                }
            } else {
                i2 = i2 + 1;
                proof {
                    assert(self.files_view() =~= files_outside(files0.take(j2 + 1), id)
                        + files0.skip(j2 + 1));
                    j2 = j2 + 1;
                }
            }
        }
        proof {
            assert(files0.skip(j2).len() == 0);
            assert(files0.take(j2) =~= files0);

            let projs1 = self.projects_view();
            let convs1 = self.conversations_view();
            let files1 = self.files_view();
            let msgs = self.messages_view();
            lemma_without_project_distinct(projs0, id);
            lemma_files_outside_distinct(files0, id);
            lemma_distinct_settings_carry(old(self).settings_view(), self.settings_view());
            assert(forall|a: int|
                0 <= a < convs1.len() ==> (#[trigger] convs1[a]).id == convs0[a].id
                    && convs1[a].message_count == convs0[a].message_count
                    && convs1[a].last_message_at == convs0[a].last_message_at);
            assert forall|i3: int| 0 <= i3 < msgs.len() implies has_conversation(
                convs1,
                #[trigger] msgs[i3].conversation_id,
            ) by {
                assert(has_conversation(convs0, msgs[i3].conversation_id));
                let b = choose|b: int| 0 <= b < convs0.len() && convs0[b].id
                    == msgs[i3].conversation_id;
                assert(convs1[b].id == msgs[i3].conversation_id);
            }
            assert forall|a: int| 0 <= a < convs1.len() implies ((
            #[trigger] convs1[a].project_id) matches Some(p) ==> has_project(projs1, p)) by {
                if convs1[a].project_id is Some {
                    let q = convs1[a].project_id->0;
                    assert(convs0[a].project_id == Some(q) && q != id);
                    assert(has_project(projs0, q));
                    let b = choose|b: int| 0 <= b < projs0.len() && projs0[b].id == q;
                    lemma_without_project_membership(projs0, id, projs0[b]);
                    assert(projs0.contains(projs0[b]));
                    assert(projs1.contains(projs0[b]));
                    let w = choose|w: int| 0 <= w < projs1.len() && projs1[w] == projs0[b];
                    assert(projs1[w].id == q);
                }
            }
            assert forall|a: int| 0 <= a < files1.len() implies has_project(
                projs1,
                #[trigger] files1[a].project_id,
            ) by {
                let f = files1[a];
                assert(files1.contains(f));
                lemma_file_cascade_membership(files0, id, f);
                let w = choose|w: int| 0 <= w < files0.len() && files0[w] == f;
                assert(has_project(projs0, f.project_id));
                let b = choose|b: int| 0 <= b < projs0.len() && projs0[b].id == f.project_id;
                lemma_without_project_membership(projs0, id, projs0[b]);
                assert(projs0.contains(projs0[b]));
                assert(projs1.contains(projs0[b]));
                let w2 = choose|w2: int| 0 <= w2 < projs1.len() && projs1[w2] == projs0[b];
                assert(projs1[w2].id == f.project_id);
            }
        }
        found
    }

    fn find_setting(&self, key: &str) -> (r: Option<usize>)
        ensures
            match r {
                Some(i) => i < self.settings_view().len() && self.settings_view()[i as int].key@
                    == key@,
                None => !has_setting(self.settings_view(), key@),
            },
    {
        let n = self.settings.len();
        for i in 0..n
            invariant
                n == self.settings_view().len(),
                forall|j: int| 0 <= j < i ==> self.settings_view()[j].key@ != key@,
        {
            let probe = String::from_str(key);
            if self.settings[i].key == probe {
                return Some(i);
            }
        }
        None
    }

    /// The value stored under a settings key, or `None`.
    pub fn get_setting(&self, key: &str) -> (r: Option<String>)
        requires
            self.wf(),
        ensures
            match r {
                Some(v) => setting_value(self.settings_view(), key@) == Some(v@),
                None => setting_value(self.settings_view(), key@) is None,
            },
    {
        proof {
            lemma_setting_value_some(self.settings_view(), key@);
        }
        match self.find_setting(key) {
            Some(i) => {
                proof {
                    lemma_setting_value_at(self.settings_view(), i as int);
                }
                Some(self.settings[i].value.clone())
            },
            None => None,
        }
    }

    /// Creates or overwrites a setting; `updated_at` follows the write,
    /// `created_at` is kept on overwrite.
    pub fn set_setting(&mut self, key: String, value: String, now: u64)
        requires
            old(self).wf(),
        ensures
            final(self).wf(),
            setting_value(final(self).settings_view(), key@) == Some(value@),
            has_setting(old(self).settings_view(), key@) ==> final(self).settings_view()
                == settings_with(old(self).settings_view(), key@, value, now),
            !has_setting(old(self).settings_view(), key@) ==> final(self).settings_view() == old(
                self,
            ).settings_view().push(
                SettingRow { key, value, created_at: now, updated_at: now },
            ),
            final(self).users_view() == old(self).users_view(),
            final(self).projects_view() == old(self).projects_view(),
            final(self).conversations_view() == old(self).conversations_view(),
            final(self).messages_view() == old(self).messages_view(),
            final(self).files_view() == old(self).files_view(),
            final(self).spec_version() == old(self).spec_version(),
    {
        let ghost s0 = self.settings_view();
        match self.find_setting(key.as_str()) {
            Some(i) => {
                self.settings[i].value = value;
                self.settings[i].updated_at = now;
                proof {
                    let s1 = self.settings_view();
                    assert(s1 =~= settings_with(s0, key@, value, now)) by {
                        assert forall|a: int| 0 <= a < s1.len() implies s1[a] == settings_with(
                            s0,
                            key@,
                            value,
                            now,
                        )[a] by {
                            if a != i {
                                assert(s0[a].key@ != key@);
                            }
                        }
                    }
                    assert(forall|a: int|
                        0 <= a < s1.len() ==> (#[trigger] s1[a]).key@ == s0[a].key@);
                    lemma_setting_value_at(s1, i as int);
                }
            },
            None => {
                self.settings.push(SettingRow { key, value, created_at: now, updated_at: now });
                proof {
                    let s1 = self.settings_view();
                    assert(s1.drop_last() =~= s0);
                    assert(setting_value(s1, s1.last().key@) == Some(s1.last().value@));
                }
            },
        }
    }

    /// Renames a conversation; `updated_at` follows the write, the
    /// derived aggregates are untouched. Returns whether a row matched.
    pub fn update_conversation_title(&mut self, id: u64, title: String, now: u64) -> (r: bool)
        requires
            old(self).wf(),
        ensures
            final(self).wf(),
            r == has_conversation(old(self).conversations_view(), id),
            final(self).conversations_view() == retitled(
                old(self).conversations_view(),
                id,
                title,
                now,
            ),
            final(self).users_view() == old(self).users_view(),
            final(self).projects_view() == old(self).projects_view(),
            final(self).messages_view() == old(self).messages_view(),
            final(self).files_view() == old(self).files_view(),
            final(self).settings_view() == old(self).settings_view(),
            final(self).spec_version() == old(self).spec_version(),
    {
        let ghost s0 = self.conversations_view();
        match self.find_conversation(id) {
            Some(k) => {
                self.conversations[k].title = title;
                self.conversations[k].updated_at = now;
                proof {
                    let s1 = self.conversations_view();
                    assert(s1 =~= retitled(s0, id, title, now)) by {
                        assert forall|a: int| 0 <= a < s1.len() implies s1[a] == retitled(
                            s0,
                            id,
                            title,
                            now,
                        )[a] by {
                            if a != k {
                                assert(s0[a].id != id);
                            }
                        }
                    }
                    assert(forall|a: int|
                        0 <= a < s1.len() ==> (#[trigger] s1[a]).id == s0[a].id
                            && s1[a].project_id == s0[a].project_id && s1[a].message_count
                            == s0[a].message_count && s1[a].last_message_at
                            == s0[a].last_message_at);
                    lemma_distinct_settings_carry(old(self).settings_view(), self.settings_view());
                    assert forall|i3: int| 0 <= i3 < self.messages_view().len() implies
                        has_conversation(
                        s1,
                        #[trigger] self.messages_view()[i3].conversation_id,
                    ) by {
                        let b = choose|b: int| 0 <= b < s0.len() && s0[b].id
                            == self.messages_view()[i3].conversation_id;
                        assert(s1[b].id == self.messages_view()[i3].conversation_id);
                    }
                }
                true
            },
            None => {
                proof {
                    assert(self.conversations_view() =~= retitled(s0, id, title, now));
                }
                false
            },
        }
    }

    /// Records that a conversation was reconciled with the remote store
    /// at `now`; a clear marker means locally dirty. Returns whether a
    /// row matched.
    pub fn mark_conversation_synced(&mut self, id: u64, now: u64) -> (r: bool)
        requires
            old(self).wf(),
        ensures
            final(self).wf(),
            r == has_conversation(old(self).conversations_view(), id),
            final(self).conversations_view() == sync_marked(
                old(self).conversations_view(),
                id,
                now,
            ),
            final(self).users_view() == old(self).users_view(),
            final(self).projects_view() == old(self).projects_view(),
            final(self).messages_view() == old(self).messages_view(),
            final(self).files_view() == old(self).files_view(),
            final(self).settings_view() == old(self).settings_view(),
            final(self).spec_version() == old(self).spec_version(),
    {
        let ghost s0 = self.conversations_view();
        match self.find_conversation(id) {
            Some(k) => {
                self.conversations[k].synced_at = Some(now);
                self.conversations[k].updated_at = now;
                proof {
                    let s1 = self.conversations_view();
                    assert(s1 =~= sync_marked(s0, id, now)) by {
                        assert forall|a: int| 0 <= a < s1.len() implies s1[a] == sync_marked(
                            s0,
                            id,
                            now,
                        )[a] by {
                            if a != k {
                                assert(s0[a].id != id);
                            }
                        }
                    }
                    assert(forall|a: int|
                        0 <= a < s1.len() ==> (#[trigger] s1[a]).id == s0[a].id
                            && s1[a].project_id == s0[a].project_id && s1[a].message_count
                            == s0[a].message_count && s1[a].last_message_at
                            == s0[a].last_message_at);
                    lemma_distinct_settings_carry(old(self).settings_view(), self.settings_view());
                    assert forall|i3: int| 0 <= i3 < self.messages_view().len() implies
                        has_conversation(
                        s1,
                        #[trigger] self.messages_view()[i3].conversation_id,
                    ) by {
                        let b = choose|b: int| 0 <= b < s0.len() && s0[b].id
                            == self.messages_view()[i3].conversation_id;
                        assert(s1[b].id == self.messages_view()[i3].conversation_id);
                    }
                }
                true
            },
            None => {
                proof {
                    assert(self.conversations_view() =~= sync_marked(s0, id, now));
                }
                false
            },
        }
    }

    /// The conversation row with this id, if any.
    pub fn get_conversation(&self, id: u64) -> (r: Option<&ConversationRow>)
        ensures
            match r {
                Some(c) => exists|k: int|
                    0 <= k < self.conversations_view().len() && (
                    #[trigger] self.conversations_view()[k]).id == id
                        && *c == self.conversations_view()[k],
                None => !has_conversation(self.conversations_view(), id),
            },
    {
        match self.find_conversation(id) {
            Some(k) => Some(&self.conversations[k]),
            None => None,
        }
    }

    /// Whether a message row with this id exists.
    pub fn has_message_row(&self, id: u64) -> (r: bool)
        ensures
            r == has_message(self.messages_view(), id),
    {
        self.find_message(id).is_some()
    }

    /// Whether a project row with this id exists.
    pub fn has_project_row(&self, id: u64) -> (r: bool)
        ensures
            r == has_project(self.projects_view(), id),
    {
        self.find_project(id).is_some()
    }

    /// Whether a file row with this id exists.
    pub fn has_file_row(&self, id: u64) -> (r: bool)
        ensures
            r == has_file(self.files_view(), id),
    {
        self.find_file(id).is_some()
    }

    /// Whether a user row with this id exists.
    pub fn has_user_row(&self, id: u64) -> (r: bool)
        ensures
            r == has_user(self.users_view(), id),
    {
        self.find_user(id).is_some()
    }

    /// The timeline of a conversation: ids of its messages in insertion
    /// order.
    pub fn message_ids_for(&self, conversation_id: u64) -> (r: Vec<u64>)
        ensures
            r@ == ids_in(self.messages_view(), conversation_id),
    {
        let mut out: Vec<u64> = Vec::new();
        let n = self.messages.len();
        for i in 0..n
            invariant
                n == self.messages_view().len(),
                out@ == ids_in(self.messages_view().take(i as int), conversation_id),
        {
            proof {
                assert(self.messages_view().take(i + 1).drop_last() =~= self.messages_view().take(
                    i as int,
                ));
                assert(self.messages_view().take(i + 1).last() == self.messages_view()[i as int]);
            }
            if self.messages[i].conversation_id == conversation_id {
                out.push(self.messages[i].id);
            }
        }
        proof {
            assert(self.messages_view().take(n as int) =~= self.messages_view());
        }
        out
    }

    /// How many settings rows the table holds.
    pub fn settings_count(&self) -> (r: usize)
        ensures
            r == self.settings_view().len(),
    {
        self.settings.len()
    }

    /// The applied schema version.
    pub fn schema_version(&self) -> (r: u64)
        ensures
            r == self.spec_version(),
    {
        self.schema_version
    }

    /// Records a newly applied schema version; no table is touched.
    pub(crate) fn set_version(&mut self, version: u64)
        requires
            old(self).wf(),
        ensures
            final(self).wf(),
            final(self).spec_version() == version,
            final(self).users_view() == old(self).users_view(),
            final(self).projects_view() == old(self).projects_view(),
            final(self).conversations_view() == old(self).conversations_view(),
            final(self).messages_view() == old(self).messages_view(),
            final(self).files_view() == old(self).files_view(),
            final(self).settings_view() == old(self).settings_view(),
    {
        self.schema_version = version;
        proof {
            assert(self.settings_view() == old(self).settings_view());
            lemma_distinct_settings_carry(old(self).settings_view(), self.settings_view());
        }
    }
}

/// Character-wise equality of two strings.
fn str_eq(a: &str, b: &str) -> (r: bool)
    ensures
        r == (a@ == b@),
{
    let sa = String::from_str(a);
    let sb = String::from_str(b);
    sa == sb
}

/// Parses a caller-supplied role name against the admissible domain.
pub fn parse_role(role: &str) -> (r: Option<MessageRole>)
    ensures
        r == spec_role_of(role@),
{
    if str_eq(role, "user") {
        Some(MessageRole::User)
    } else if str_eq(role, "assistant") {
        Some(MessageRole::Assistant)
    } else {
        None
    }
}

/// Parses a caller-supplied status name against the admissible domain.
pub fn parse_status(status: &str) -> (r: Option<MessageStatus>)
    ensures
        r == spec_status_of(status@),
{
    if str_eq(status, "sending") {
        Some(MessageStatus::Sending)
    } else if str_eq(status, "streaming") {
        Some(MessageStatus::Streaming)
    } else if str_eq(status, "complete") {
        Some(MessageStatus::Complete)
    } else if str_eq(status, "error") {
        Some(MessageStatus::Failed)
    } else {
        None
    }
}

/// The conversation row after one more message at time `now`: the two
/// derived aggregates advance and `updated_at` follows the write.
pub open spec fn bumped(c: ConversationRow, now: u64) -> ConversationRow {
    ConversationRow {
        id: c.id,
        project_id: c.project_id,
        title: c.title,
        created_at: c.created_at,
        updated_at: now,
        message_count: (c.message_count + 1) as u64,
        last_message_at: Some(now),
        synced_at: c.synced_at,
    }
}

/// The conversation table after a message insert into `cid`: only that
/// conversation's row advances.
pub open spec fn bump_in(s: Seq<ConversationRow>, cid: u64, now: u64) -> Seq<ConversationRow> {
    Seq::new(
        s.len(),
        |i: int|
            if s[i].id == cid {
                bumped(s[i], now)
            } else {
                s[i]
            },
    )
}

/// Appending a message changes the count of exactly its conversation,
/// by one.
proof fn lemma_msg_count_push(msgs: Seq<MessageRow>, m: MessageRow, cid: u64)
    ensures
        msg_count(msgs.push(m), cid) == msg_count(msgs, cid) + (if m.conversation_id == cid {
            1nat
        } else {
            0nat
        }),
        last_msg_at(msgs.push(m), cid) == (if m.conversation_id == cid {
            Some(m.created_at)
        } else {
            last_msg_at(msgs, cid)
        }),
{
    assert(msgs.push(m).drop_last() =~= msgs);
    assert(msgs.push(m).last() == m);
}

/// A conversation's count never exceeds the number of messages.
proof fn lemma_msg_count_le_len(msgs: Seq<MessageRow>, cid: u64)
    ensures
        msg_count(msgs, cid) <= msgs.len(),
    decreases msgs.len(),
{
    if msgs.len() > 0 {
        lemma_msg_count_le_len(msgs.drop_last(), cid);
    }
}

/// Key distinctness transfers between equal settings tables.
pub(crate) proof fn lemma_distinct_settings_carry(s0: Seq<SettingRow>, s1: Seq<SettingRow>)
    requires
        s0 == s1,
        forall|i: int, j: int| 0 <= i < j < s0.len() ==> s0[i].key@ != s0[j].key@,
    ensures
        forall|i: int, j: int| 0 <= i < j < s1.len() ==> s1[i].key@ != s1[j].key@,
{
}

/// A conversation id referenced by no message has count zero and no
/// last-message time.
proof fn lemma_count_of_unreferenced(msgs: Seq<MessageRow>, cid: u64)
    requires
        forall|i: int| 0 <= i < msgs.len() ==> (#[trigger] msgs[i].conversation_id) != cid,
    ensures
        msg_count(msgs, cid) == 0,
        last_msg_at(msgs, cid) is None,
    decreases msgs.len(),
{
    if msgs.len() > 0 {
        assert(forall|i: int|
            0 <= i < msgs.drop_last().len() ==> (#[trigger] msgs.drop_last()[i]) == msgs[i]);
        lemma_count_of_unreferenced(msgs.drop_last(), cid);
    }
}


/// The conversation table without the row keyed `cid`.
pub open spec fn without_conversation(s: Seq<ConversationRow>, cid: u64) -> Seq<ConversationRow>
    decreases s.len(),
{
    if s.len() == 0 {
        Seq::empty()
    } else if s.last().id == cid {
        without_conversation(s.drop_last(), cid)
    } else {
        without_conversation(s.drop_last(), cid).push(s.last())
    }
}

/// The message table without the messages of conversation `cid`.
pub open spec fn msgs_outside(s: Seq<MessageRow>, cid: u64) -> Seq<MessageRow>
    decreases s.len(),
{
    if s.len() == 0 {
        Seq::empty()
    } else if s.last().conversation_id == cid {
        msgs_outside(s.drop_last(), cid)
    } else {
        msgs_outside(s.drop_last(), cid).push(s.last())
    }
}

/// The project table without the row keyed `pid`.
pub open spec fn without_project(s: Seq<ProjectRow>, pid: u64) -> Seq<ProjectRow>
    decreases s.len(),
{
    if s.len() == 0 {
        Seq::empty()
    } else if s.last().id == pid {
        without_project(s.drop_last(), pid)
    } else {
        without_project(s.drop_last(), pid).push(s.last())
    }
}

/// The file table without the files of project `pid`.
pub open spec fn files_outside(s: Seq<ProjectFileRow>, pid: u64) -> Seq<ProjectFileRow>
    decreases s.len(),
{
    if s.len() == 0 {
        Seq::empty()
    } else if s.last().project_id == pid {
        files_outside(s.drop_last(), pid)
    } else {
        files_outside(s.drop_last(), pid).push(s.last())
    }
}

/// The conversation row after its project was deleted: the reference is
/// cleared rather than the row deleted, and the clearing is an update.
pub open spec fn unlinked(c: ConversationRow, pid: u64, now: u64) -> ConversationRow {
    if c.project_id == Some(pid) {
        ConversationRow {
            id: c.id,
            project_id: None,
            title: c.title,
            created_at: c.created_at,
            updated_at: now,
            message_count: c.message_count,
            last_message_at: c.last_message_at,
            synced_at: c.synced_at,
        }
    } else {
        c
    }
}

/// The conversation table after project `pid` was deleted.
pub open spec fn unlink_project(s: Seq<ConversationRow>, pid: u64, now: u64) -> Seq<
    ConversationRow,
> {
    Seq::new(s.len(), |i: int| unlinked(s[i], pid, now))
}

/// Law: deleting a conversation removes exactly the messages that
/// referenced it; messages of every other conversation survive.
pub proof fn lemma_cascade_membership(s: Seq<MessageRow>, cid: u64, m: MessageRow)
    ensures
        msgs_outside(s, cid).contains(m) <==> (s.contains(m) && m.conversation_id != cid),
    decreases s.len(),
{
    if s.len() > 0 {
        lemma_cascade_membership(s.drop_last(), cid, m);
        let rec = msgs_outside(s.drop_last(), cid);
        if s.drop_last().contains(m) {
            let w = choose|w: int| 0 <= w < s.drop_last().len() && s.drop_last()[w] == m;
            assert(s[w] == m);
        }
        if s.contains(m) && m != s.last() {
            let w = choose|w: int| 0 <= w < s.len() && s[w] == m;
            assert(s.drop_last()[w] == m);
        }
        if s.last().conversation_id != cid {
            if rec.contains(m) {
                let w = choose|w: int| 0 <= w < rec.len() && rec[w] == m;
                assert(rec.push(s.last())[w] == m);
            }
            if m == s.last() {
                assert(rec.push(s.last())[rec.len() as int] == m);
            }
            if rec.push(s.last()).contains(m) {
                let w = choose|w: int| 0 <= w < rec.push(s.last()).len() && rec.push(s.last())[w]
                    == m;
                if w < rec.len() {
                    assert(rec[w] == m);
                }
            }
        }
        if s.contains(m) && m == s.last() {
        }
    }
}

/// Membership in the conversation table after a delete.
pub proof fn lemma_without_conversation_membership(s: Seq<ConversationRow>, cid: u64, m: ConversationRow)
    ensures
        without_conversation(s, cid).contains(m) <==> (s.contains(m) && m.id != cid),
    decreases s.len(),
{
    if s.len() > 0 {
        lemma_without_conversation_membership(s.drop_last(), cid, m);
        let rec = without_conversation(s.drop_last(), cid);
        if s.drop_last().contains(m) {
            let w = choose|w: int| 0 <= w < s.drop_last().len() && s.drop_last()[w] == m;
            assert(s[w] == m);
        }
        if s.contains(m) && m != s.last() {
            let w = choose|w: int| 0 <= w < s.len() && s[w] == m;
            assert(s.drop_last()[w] == m);
        }
        if s.last().id != cid {
            if rec.contains(m) {
                let w = choose|w: int| 0 <= w < rec.len() && rec[w] == m;
                assert(rec.push(s.last())[w] == m);
            }
            if m == s.last() {
                assert(rec.push(s.last())[rec.len() as int] == m);
            }
            if rec.push(s.last()).contains(m) {
                let w = choose|w: int| 0 <= w < rec.push(s.last()).len() && rec.push(s.last())[w]
                    == m;
                if w < rec.len() {
                    assert(rec[w] == m);
                }
            }
        }
    }
}

/// Membership in the project table after a delete.
pub proof fn lemma_without_project_membership(s: Seq<ProjectRow>, pid: u64, m: ProjectRow)
    ensures
        without_project(s, pid).contains(m) <==> (s.contains(m) && m.id != pid),
    decreases s.len(),
{
    if s.len() > 0 {
        lemma_without_project_membership(s.drop_last(), pid, m);
        let rec = without_project(s.drop_last(), pid);
        if s.drop_last().contains(m) {
            let w = choose|w: int| 0 <= w < s.drop_last().len() && s.drop_last()[w] == m;
            assert(s[w] == m);
        }
        if s.contains(m) && m != s.last() {
            let w = choose|w: int| 0 <= w < s.len() && s[w] == m;
            assert(s.drop_last()[w] == m);
        }
        if s.last().id != pid {
            if rec.contains(m) {
                let w = choose|w: int| 0 <= w < rec.len() && rec[w] == m;
                assert(rec.push(s.last())[w] == m);
            }
            if m == s.last() {
                assert(rec.push(s.last())[rec.len() as int] == m);
            }
            if rec.push(s.last()).contains(m) {
                let w = choose|w: int| 0 <= w < rec.push(s.last()).len() && rec.push(s.last())[w]
                    == m;
                if w < rec.len() {
                    assert(rec[w] == m);
                }
            }
        }
    }
}

/// Law: deleting a project removes exactly the files that referenced it.
pub proof fn lemma_file_cascade_membership(s: Seq<ProjectFileRow>, pid: u64, m: ProjectFileRow)
    ensures
        files_outside(s, pid).contains(m) <==> (s.contains(m) && m.project_id != pid),
    decreases s.len(),
{
    if s.len() > 0 {
        lemma_file_cascade_membership(s.drop_last(), pid, m);
        let rec = files_outside(s.drop_last(), pid);
        if s.drop_last().contains(m) {
            let w = choose|w: int| 0 <= w < s.drop_last().len() && s.drop_last()[w] == m;
            assert(s[w] == m);
        }
        if s.contains(m) && m != s.last() {
            let w = choose|w: int| 0 <= w < s.len() && s[w] == m;
            assert(s.drop_last()[w] == m);
        }
        if s.last().project_id != pid {
            if rec.contains(m) {
                let w = choose|w: int| 0 <= w < rec.len() && rec[w] == m;
                assert(rec.push(s.last())[w] == m);
            }
            if m == s.last() {
                assert(rec.push(s.last())[rec.len() as int] == m);
            }
            if rec.push(s.last()).contains(m) {
                let w = choose|w: int| 0 <= w < rec.push(s.last()).len() && rec.push(s.last())[w]
                    == m;
                if w < rec.len() {
                    assert(rec[w] == m);
                }
            }
        }
    }
}

/// Law: a cascade delete leaves the aggregates of every other
/// conversation untouched.
pub proof fn lemma_cascade_counts(s: Seq<MessageRow>, cid: u64, other: u64)
    requires
        other != cid,
    ensures
        msg_count(msgs_outside(s, cid), other) == msg_count(s, other),
        last_msg_at(msgs_outside(s, cid), other) == last_msg_at(s, other),
    decreases s.len(),
{
    if s.len() > 0 {
        lemma_cascade_counts(s.drop_last(), cid, other);
        if s.last().conversation_id != cid {
            lemma_msg_count_push(msgs_outside(s.drop_last(), cid), s.last(), other);
        }
    }
}


/// Distinct conversation ids survive a delete.
proof fn lemma_without_conversation_distinct(s: Seq<ConversationRow>, cid: u64)
    requires
        forall|i: int, j: int| 0 <= i < j < s.len() ==> s[i].id != s[j].id,
    ensures
        forall|i: int, j: int|
            0 <= i < j < without_conversation(s, cid).len() ==> without_conversation(s, cid)[i].id
                != without_conversation(s, cid)[j].id,
    decreases s.len(),
{
    if s.len() > 0 {
        assert(forall|i: int|
            0 <= i < s.drop_last().len() ==> #[trigger] s.drop_last()[i] == s[i]);
        lemma_without_conversation_distinct(s.drop_last(), cid);
        let rec = without_conversation(s.drop_last(), cid);
        if s.last().id != cid {
            assert forall|i: int| 0 <= i < rec.len() implies (#[trigger] rec[i]).id
                != s.last().id by {
                lemma_without_conversation_membership(s.drop_last(), cid, rec[i]);
                assert(rec.contains(rec[i]));
                let w = choose|w: int| 0 <= w < s.drop_last().len() && s.drop_last()[w] == rec[i];
                assert(s[w] == rec[i]);
            }
        }
    }
}

/// Distinct message ids survive a cascade delete.
proof fn lemma_msgs_outside_distinct(s: Seq<MessageRow>, cid: u64)
    requires
        forall|i: int, j: int| 0 <= i < j < s.len() ==> s[i].id != s[j].id,
    ensures
        forall|i: int, j: int|
            0 <= i < j < msgs_outside(s, cid).len() ==> msgs_outside(s, cid)[i].id != msgs_outside(
                s,
                cid,
            )[j].id,
    decreases s.len(),
{
    if s.len() > 0 {
        assert(forall|i: int|
            0 <= i < s.drop_last().len() ==> #[trigger] s.drop_last()[i] == s[i]);
        lemma_msgs_outside_distinct(s.drop_last(), cid);
        let rec = msgs_outside(s.drop_last(), cid);
        if s.last().conversation_id != cid {
            assert forall|i: int| 0 <= i < rec.len() implies (#[trigger] rec[i]).id
                != s.last().id by {
                lemma_cascade_membership(s.drop_last(), cid, rec[i]);
                assert(rec.contains(rec[i]));
                let w = choose|w: int| 0 <= w < s.drop_last().len() && s.drop_last()[w] == rec[i];
                assert(s[w] == rec[i]);
            }
        }
    }
}

/// Distinct project ids survive a delete.
proof fn lemma_without_project_distinct(s: Seq<ProjectRow>, pid: u64)
    requires
        forall|i: int, j: int| 0 <= i < j < s.len() ==> s[i].id != s[j].id,
    ensures
        forall|i: int, j: int|
            0 <= i < j < without_project(s, pid).len() ==> without_project(s, pid)[i].id
                != without_project(s, pid)[j].id,
    decreases s.len(),
{
    if s.len() > 0 {
        assert(forall|i: int|
            0 <= i < s.drop_last().len() ==> #[trigger] s.drop_last()[i] == s[i]);
        lemma_without_project_distinct(s.drop_last(), pid);
        let rec = without_project(s.drop_last(), pid);
        if s.last().id != pid {
            assert forall|i: int| 0 <= i < rec.len() implies (#[trigger] rec[i]).id
                != s.last().id by {
                lemma_without_project_membership(s.drop_last(), pid, rec[i]);
                assert(rec.contains(rec[i]));
                let w = choose|w: int| 0 <= w < s.drop_last().len() && s.drop_last()[w] == rec[i];
                assert(s[w] == rec[i]);
            }
        }
    }
}

/// Distinct file ids survive a cascade delete.
proof fn lemma_files_outside_distinct(s: Seq<ProjectFileRow>, pid: u64)
    requires
        forall|i: int, j: int| 0 <= i < j < s.len() ==> s[i].id != s[j].id,
    ensures
        forall|i: int, j: int|
            0 <= i < j < files_outside(s, pid).len() ==> files_outside(s, pid)[i].id
                != files_outside(s, pid)[j].id,
    decreases s.len(),
{
    if s.len() > 0 {
        assert(forall|i: int|
            0 <= i < s.drop_last().len() ==> #[trigger] s.drop_last()[i] == s[i]);
        lemma_files_outside_distinct(s.drop_last(), pid);
        let rec = files_outside(s.drop_last(), pid);
        if s.last().project_id != pid {
            assert forall|i: int| 0 <= i < rec.len() implies (#[trigger] rec[i]).id
                != s.last().id by {
                lemma_file_cascade_membership(s.drop_last(), pid, rec[i]);
                assert(rec.contains(rec[i]));
                let w = choose|w: int| 0 <= w < s.drop_last().len() && s.drop_last()[w] == rec[i];
                assert(s[w] == rec[i]);
            }
        }
    }
}


/// The settings table after overwriting the value under key `k`.
pub open spec fn settings_with(s: Seq<SettingRow>, k: Seq<char>, value: String, now: u64) -> Seq<
    SettingRow,
> {
    Seq::new(
        s.len(),
        |i: int|
            if s[i].key@ == k {
                SettingRow {
                    key: s[i].key,
                    value: value,
                    created_at: s[i].created_at,
                    updated_at: now,
                }
            } else {
                s[i]
            },
    )
}

/// The conversation table after a retitle of `cid`.
pub open spec fn retitled(s: Seq<ConversationRow>, cid: u64, title: String, now: u64) -> Seq<
    ConversationRow,
> {
    Seq::new(
        s.len(),
        |i: int|
            if s[i].id == cid {
                ConversationRow {
                    id: s[i].id,
                    project_id: s[i].project_id,
                    title: title,
                    created_at: s[i].created_at,
                    updated_at: now,
                    message_count: s[i].message_count,
                    last_message_at: s[i].last_message_at,
                    synced_at: s[i].synced_at,
                }
            } else {
                s[i]
            },
    )
}

/// The conversation table after `cid` was marked reconciled at `now`.
pub open spec fn sync_marked(s: Seq<ConversationRow>, cid: u64, now: u64) -> Seq<
    ConversationRow,
> {
    Seq::new(
        s.len(),
        |i: int|
            if s[i].id == cid {
                ConversationRow {
                    id: s[i].id,
                    project_id: s[i].project_id,
                    title: s[i].title,
                    created_at: s[i].created_at,
                    updated_at: now,
                    message_count: s[i].message_count,
                    last_message_at: s[i].last_message_at,
                    synced_at: Some(now),
                }
            } else {
                s[i]
            },
    )
}

/// A key is present exactly when a lookup yields a value.
proof fn lemma_setting_value_some(s: Seq<SettingRow>, k: Seq<char>)
    ensures
        has_setting(s, k) <==> setting_value(s, k) is Some,
    decreases s.len(),
{
    if s.len() > 0 {
        lemma_setting_value_some(s.drop_last(), k);
        if has_setting(s.drop_last(), k) {
            let i = choose|i: int| 0 <= i < s.drop_last().len() && s.drop_last()[i].key@ == k;
            assert(s[i].key@ == k);
        }
        if has_setting(s, k) && s.last().key@ != k {
            let i = choose|i: int| 0 <= i < s.len() && s[i].key@ == k;
            assert(s.drop_last()[i].key@ == k);
        }
    }
}

/// Under distinct keys, the lookup yields the value at the key's row.
proof fn lemma_setting_value_at(s: Seq<SettingRow>, i: int)
    requires
        forall|a: int, b: int| 0 <= a < b < s.len() ==> s[a].key@ != s[b].key@,
        0 <= i < s.len(),
    ensures
        setting_value(s, s[i].key@) == Some(s[i].value@),
    decreases s.len(),
{
    if i < s.len() - 1 {
        assert(forall|a: int|
            0 <= a < s.drop_last().len() ==> #[trigger] s.drop_last()[a] == s[a]);
        lemma_setting_value_at(s.drop_last(), i);
        assert(s.last().key@ != s[i].key@);
    }
}


/// Law: after a project delete, no conversation references the deleted
/// project; every conversation row survives, those that referenced it
/// merely lose the reference, all others are untouched.
pub proof fn lemma_unlink_clears_references(s: Seq<ConversationRow>, pid: u64, now: u64)
    ensures
        unlink_project(s, pid, now).len() == s.len(),
        forall|i: int|
            0 <= i < s.len() ==> (#[trigger] unlink_project(s, pid, now)[i]).project_id != Some(
                pid,
            ),
        forall|i: int|
            0 <= i < s.len() && s[i].project_id != Some(pid) ==> #[trigger] unlink_project(
                s,
                pid,
                now,
            )[i] == s[i],
        forall|i: int|
            0 <= i < s.len() && s[i].project_id == Some(pid) ==> (#[trigger] unlink_project(
                s,
                pid,
                now,
            )[i]).project_id is None,
{
}


/// Law: in a well-formed cache the derived conversation aggregates agree
/// with the message table — `message_count` is the number of messages
/// referencing the conversation and `last_message_at` is the creation
/// time of the most recently inserted one. No write operation hands these
/// fields to the caller, so they hold after every operation.
pub proof fn lemma_aggregates_follow_messages(c: Cache, i: int)
    requires
        c.wf(),
        0 <= i < c.conversations_view().len(),
    ensures
        c.conversations_view()[i].message_count as nat == msg_count(
            c.messages_view(),
            c.conversations_view()[i].id,
        ),
        c.conversations_view()[i].last_message_at == last_msg_at(
            c.messages_view(),
            c.conversations_view()[i].id,
        ),
{
}


/// The ids of the messages of one conversation, in insertion order.
pub open spec fn ids_in(s: Seq<MessageRow>, cid: u64) -> Seq<u64>
    decreases s.len(),
{
    if s.len() == 0 {
        Seq::empty()
    } else if s.last().conversation_id == cid {
        ids_in(s.drop_last(), cid).push(s.last().id)
    } else {
        ids_in(s.drop_last(), cid)
    }
}

} // verus!
