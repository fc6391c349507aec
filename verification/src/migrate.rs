//! Forward-only schema evolution: an ordered, numbered sequence of
//! idempotent migrations applied at most once per version against the
//! persisted schema-version marker. Re-applying an already-applied
//! version is a safe no-op; a version gap or an unknown version is a
//! fatal configuration error, never guessed over. No down-migrations
//! exist.

use vstd::prelude::*;

use crate::cache::Cache;
use crate::cache::CacheError;
use crate::cache::SettingRow;
use crate::cache::has_setting;
use crate::cache::setting_value;

verus! {

/// The newest schema version this build defines.
pub const LATEST_SCHEMA_VERSION: u64 = 1;

/// Appending a settings row changes exactly the lookup of its key.
proof fn lemma_setting_value_push(s: Seq<SettingRow>, row: SettingRow, k: Seq<char>)
    ensures
        setting_value(s.push(row), k) == (if row.key@ == k {
            Some(row.value@)
        } else {
            setting_value(s, k)
        }),
        has_setting(s.push(row), k) == (has_setting(s, k) || row.key@ == k),
{
    assert(s.push(row).drop_last() =~= s);
    assert(s.push(row).last() == row);
    if has_setting(s, k) {
        let i = choose|i: int| 0 <= i < s.len() && s[i].key@ == k;
        assert(s.push(row)[i].key@ == k);
    }
    if row.key@ == k {
        assert(s.push(row)[s.len() as int].key@ == k);
    }
    if has_setting(s.push(row), k) && !(row.key@ == k) {
        let i = choose|i: int| 0 <= i < s.push(row).len() && s.push(row)[i].key@ == k;
        assert(s[i].key@ == k);
    }
}

impl Cache {
    /// Seeds one default setting: created if absent, left untouched if a
    /// row under the key already exists (insert-or-ignore).
    fn seed_setting(&mut self, key: &str, value: &str, now: u64)
        requires
            old(self).wf(),
        ensures
            final(self).wf(),
            has_setting(old(self).settings_view(), key@) ==> *final(self) == *old(self),
            !has_setting(old(self).settings_view(), key@) ==> ({
                let s1 = final(self).settings_view();
                &&& s1.len() == old(self).settings_view().len() + 1
                &&& s1.drop_last() == old(self).settings_view()
                &&& s1.last().key@ == key@
                &&& s1.last().value@ == value@
                &&& s1.last().created_at == now
                &&& s1.last().updated_at == now
            }) && final(self).users_view() == old(self).users_view()
                && final(self).projects_view() == old(self).projects_view()
                && final(self).conversations_view() == old(self).conversations_view()
                && final(self).messages_view() == old(self).messages_view()
                && final(self).files_view() == old(self).files_view()
                && final(self).spec_version() == old(self).spec_version(),
            forall|k: Seq<char>|
                #[trigger] setting_value(final(self).settings_view(), k) == (
                if !has_setting(old(self).settings_view(), key@) && key@ == k {
                    Some(value@)
                } else {
                    setting_value(old(self).settings_view(), k)
                }),
    {
        let ghost s0 = self.settings_view();
        if self.get_setting(key).is_none() {
            proof {
                lemma_has_setting_value(s0, key@);
            }
            self.set_setting(String::from_str(key), String::from_str(value), now);
            proof {
                assert(self.settings_view().drop_last() =~= s0);
                assert forall|k: Seq<char>|
                    #[trigger] setting_value(self.settings_view(), k) == (if key@ == k {
                        Some(value@)
                    } else {
                        setting_value(s0, k)
                    }) by {
                    lemma_setting_value_push(s0, self.settings_view().last(), k);
                }
            }
        } else {
            proof {
                lemma_has_setting_value(s0, key@);
            }
        }
    }

    /// The body of migration 1: create the empty schema and seed the
    /// default settings, each step guarded so that re-running a
    /// partially applied migration converges to the same end state.
    fn apply_initial_schema(&mut self, now: u64)
        requires
            old(self).wf(),
        ensures
            final(self).wf(),
            seeded_defaults(old(self).settings_view(), final(self).settings_view()),
            final(self).users_view() == old(self).users_view(),
            final(self).projects_view() == old(self).projects_view(),
            final(self).conversations_view() == old(self).conversations_view(),
            final(self).messages_view() == old(self).messages_view(),
            final(self).files_view() == old(self).files_view(),
            final(self).spec_version() == old(self).spec_version(),
    {
        proof {
            lemma_default_keys_distinct();
        }
        let ghost s0 = self.settings_view();
        self.seed_setting("theme", "\"dark\"", now);
        let ghost s1 = self.settings_view();
        self.seed_setting("fontSize", "\"medium\"", now);
        let ghost s2 = self.settings_view();
        self.seed_setting("keyboardShortcutsEnabled", "true", now);
        let ghost s3 = self.settings_view();
        self.seed_setting("apiEndpoint", "\"https://jb-empire-api.onrender.com\"", now);
        proof {
            let s4 = self.settings_view();
            assert(setting_value(s4, "theme"@) == setting_value(s1, "theme"@));
            assert(setting_value(s4, "fontSize"@) == setting_value(s2, "fontSize"@));
            assert(setting_value(s4, "keyboardShortcutsEnabled"@) == setting_value(
                s3,
                "keyboardShortcutsEnabled"@,
            ));
            assert(has_setting(s1, "fontSize"@) == has_setting(s0, "fontSize"@)) by {
                lemma_has_setting_value(s0, "fontSize"@);
                lemma_has_setting_value(s1, "fontSize"@);
            }
            assert(has_setting(s2, "keyboardShortcutsEnabled"@) == has_setting(
                s0,
                "keyboardShortcutsEnabled"@,
            )) by {
                lemma_has_setting_value(s0, "keyboardShortcutsEnabled"@);
                lemma_has_setting_value(s1, "keyboardShortcutsEnabled"@);
                lemma_has_setting_value(s2, "keyboardShortcutsEnabled"@);
            }
            assert(has_setting(s3, "apiEndpoint"@) == has_setting(s0, "apiEndpoint"@)) by {
                lemma_has_setting_value(s0, "apiEndpoint"@);
                lemma_has_setting_value(s1, "apiEndpoint"@);
                lemma_has_setting_value(s2, "apiEndpoint"@);
                lemma_has_setting_value(s3, "apiEndpoint"@);
            }
        }
    }

    /// Applies one numbered migration against the version marker:
    /// an already-applied version is a safe no-op (`Ok(false)`), the
    /// next unapplied version runs (`Ok(true)`), anything else is a
    /// fatal configuration error and the store is untouched.
    pub fn apply_migration(&mut self, version: u64, now: u64) -> (r: Result<bool, CacheError>)
        requires
            old(self).wf(),
        ensures
            final(self).wf(),
            version <= old(self).spec_version() ==> r == Ok::<bool, CacheError>(false)
                && *final(self) == *old(self),
            version > old(self).spec_version() + 1 ==> r == Err::<bool, CacheError>(
                CacheError::MigrationGap,
            ) && *final(self) == *old(self),
            version == old(self).spec_version() + 1 && version > LATEST_SCHEMA_VERSION ==> r
                == Err::<bool, CacheError>(CacheError::UnknownMigration)
                && *final(self) == *old(self),
            version == old(self).spec_version() + 1 && version <= LATEST_SCHEMA_VERSION ==> r
                == Ok::<bool, CacheError>(true) && final(self).spec_version() == version
                && seeded_defaults(old(self).settings_view(), final(self).settings_view())
                && final(self).users_view() == old(self).users_view()
                && final(self).projects_view() == old(self).projects_view()
                && final(self).conversations_view() == old(self).conversations_view()
                && final(self).messages_view() == old(self).messages_view()
                && final(self).files_view() == old(self).files_view(),

    {
        if version <= self.schema_version() {
            return Ok(false);
        }
        if version > self.schema_version() + 1 {
            return Err(CacheError::MigrationGap);
        }
        if version > LATEST_SCHEMA_VERSION {
            return Err(CacheError::UnknownMigration);
        }
        self.apply_initial_schema(now);
        self.set_version(version);
        Ok(true)
    }

    /// Brings the store to the latest schema version, applying every
    /// unapplied migration in ascending order. Running it against an
    /// already-migrated store changes nothing — no errors, no duplicate
    /// seeded rows.
    pub fn migrate(&mut self, now: u64) -> (r: Result<(), CacheError>)
        requires
            old(self).wf(),
        ensures
            final(self).wf(),
            r == Ok::<(), CacheError>(()),
            old(self).spec_version() >= LATEST_SCHEMA_VERSION ==> *final(self) == *old(self),
            old(self).spec_version() < LATEST_SCHEMA_VERSION ==> final(self).spec_version()
                == LATEST_SCHEMA_VERSION && seeded_defaults(
                old(self).settings_view(),
                final(self).settings_view(),
            ) && final(self).users_view() == old(self).users_view()
                && final(self).projects_view() == old(self).projects_view()
                && final(self).conversations_view() == old(self).conversations_view()
                && final(self).messages_view() == old(self).messages_view()
                && final(self).files_view() == old(self).files_view(),
    {
        if self.schema_version() >= LATEST_SCHEMA_VERSION {
            return Ok(());
        }
        let next = self.schema_version() + 1;
        match self.apply_migration(next, now) {
            Ok(_) => Ok(()),
            Err(_) => {
                proof {
                    assert(false);
                }
                Ok(())
            },
        }
    }
}

/// What seeding leaves behind: every default key holds a value — the
/// default one where the key was absent, the pre-existing value where
/// it was not — and every other key's lookup is untouched.
pub open spec fn seeded_defaults(s0: Seq<SettingRow>, s1: Seq<SettingRow>) -> bool {
    &&& setting_value(s1, "theme"@) == (if has_setting(s0, "theme"@) {
        setting_value(s0, "theme"@)
    } else {
        Some("\"dark\""@)
    })
    &&& setting_value(s1, "fontSize"@) == (if has_setting(s0, "fontSize"@) {
        setting_value(s0, "fontSize"@)
    } else {
        Some("\"medium\""@)
    })
    &&& setting_value(s1, "keyboardShortcutsEnabled"@) == (if has_setting(
        s0,
        "keyboardShortcutsEnabled"@,
    ) {
        setting_value(s0, "keyboardShortcutsEnabled"@)
    } else {
        Some("true"@)
    })
    &&& setting_value(s1, "apiEndpoint"@) == (if has_setting(s0, "apiEndpoint"@) {
        setting_value(s0, "apiEndpoint"@)
    } else {
        Some("\"https://jb-empire-api.onrender.com\""@)
    })
    &&& forall|k: Seq<char>|
        k != "theme"@ && k != "fontSize"@ && k != "keyboardShortcutsEnabled"@ && k
            != "apiEndpoint"@ ==> #[trigger] setting_value(s1, k) == setting_value(s0, k)
}

/// The four default keys are pairwise distinct.
proof fn lemma_default_keys_distinct()
    ensures
        "theme"@ != "fontSize"@,
        "theme"@ != "keyboardShortcutsEnabled"@,
        "theme"@ != "apiEndpoint"@,
        "fontSize"@ != "keyboardShortcutsEnabled"@,
        "fontSize"@ != "apiEndpoint"@,
        "keyboardShortcutsEnabled"@ != "apiEndpoint"@,
{
    reveal_strlit("theme");
    reveal_strlit("fontSize");
    reveal_strlit("keyboardShortcutsEnabled");
    reveal_strlit("apiEndpoint");
    assert("theme"@.len() == 5);
    assert("fontSize"@.len() == 8);
    assert("keyboardShortcutsEnabled"@.len() == 24);
    assert("apiEndpoint"@.len() == 11);
}

/// A key is present exactly when its lookup yields a value.
proof fn lemma_has_setting_value(s: Seq<SettingRow>, k: Seq<char>)
    ensures
        has_setting(s, k) <==> setting_value(s, k) is Some,
    decreases s.len(),
{
    if s.len() > 0 {
        lemma_has_setting_value(s.drop_last(), k);
        if has_setting(s.drop_last(), k) {
            let i = choose|i: int| 0 <= i < s.drop_last().len() && s.drop_last()[i].key@ == k;
            assert(s[i].key@ == k);
        }
        if has_setting(s, k) && s.last().key@ != k {
            let i = choose|i: int| 0 <= i < s.len() && s[i].key@ == k;
            assert(s.drop_last()[i].key@ == k);
        }
    }
}

} // verus!
