//! Full-fidelity secrets: a vault whose values an authorised query can read.
//! Statements are sent through the `psql` client; this module writes them,
//! reads the replies and decides what a restore does next.

use vstd::prelude::*;
use crate::error::MigrateError;
use crate::numbers::{parse_i32_at, parse_i32_spec};
use crate::text::{chars_of, copy_string, push_char, same_text, trim, trim_range, views};

verus! {

/// A secret stored in the vault, with its value.
pub struct VaultSecret {
    pub id: String,
    pub name: String,
    pub secret: String,
    pub description: Option<String>,
    pub created_at: String,
    pub updated_at: String,
}

/// The secrets of a vault, with the time they were read.
pub struct VaultBackup {
    pub secrets: Vec<VaultSecret>,
    pub exported_at: String,
}

/// The vault of one database.
pub struct VaultClient {
    db_url: String,
}

/// Asks whether the vault extension is installed.
pub const ENABLED_SQL: &'static str =
    "SELECT EXISTS (SELECT 1 FROM pg_extension WHERE extname = 'supabase_vault')";

/// Lists every secret with its decrypted value, as one JSON array.
pub const LIST_SQL: &'static str = "SELECT COALESCE(json_agg(json_build_object('id', id::text, 'name', name, 'secret', secret, 'description', description, 'created_at', created_at::text, 'updated_at', updated_at::text)), '[]'::json)::text FROM vault.decrypted_secrets";

pub const TUPLES_ONLY_FLAG: &'static str = "-t";
pub const UNALIGNED_FLAG: &'static str = "-A";
pub const COMMAND_FLAG: &'static str = "-c";
pub const CREATE_OPEN: &'static str = "SELECT vault.create_secret('";
pub const CREATE_CLOSE: &'static str = "')::text";
pub const UPDATE_OPEN: &'static str = "SELECT vault.update_secret('";
pub const COUNT_OPEN: &'static str = "SELECT COUNT(*) FROM vault.decrypted_secrets WHERE name = '";
pub const NULL_SQL: &'static str = "NULL";
pub const QUERY_FAILED: &'static str = "Query failed: ";
pub const EMPTY_RESPONSE: &'static str = "Empty response";
pub const UNREADABLE_COUNT: &'static str = "Unreadable count: ";
pub const VAULT_DISABLED: &'static str =
    "Vault extension is not enabled in target project. Enable it with: CREATE EXTENSION IF NOT EXISTS supabase_vault";

/// `s` with every single quote doubled, safe inside a quoted SQL literal.
pub open spec fn escape_quotes(s: Seq<char>) -> Seq<char>
    decreases s.len(),
{
    if s.len() == 0 {
        Seq::empty()
    } else if s.last() == '\'' {
        escape_quotes(s.drop_last()).push('\'').push('\'')
    } else {
        escape_quotes(s.drop_last()).push(s.last())
    }
}

/// `s` as a quoted SQL literal.
pub open spec fn quoted(s: Seq<char>) -> Seq<char> {
    seq!['\''] + escape_quotes(s) + seq!['\'']
}

/// A quoted literal, or `NULL` when absent.
pub open spec fn quoted_or_null(s: Option<Seq<char>>) -> Seq<char> {
    match s {
        Some(v) => quoted(v),
        None => NULL_SQL@,
    }
}

pub open spec fn comma() -> Seq<char> {
    seq![',', ' ']
}

/// The statement that creates a secret.
pub open spec fn create_sql(name: Seq<char>, value: Seq<char>, desc: Option<Seq<char>>) -> Seq<
    char,
> {
    CREATE_OPEN@ + escape_quotes(name) + seq!['\'', ',', ' ', '\''] + escape_quotes(value) + match desc {
        Some(d) => seq!['\'', ',', ' ', '\''] + escape_quotes(d),
        None => Seq::empty(),
    } + CREATE_CLOSE@
}

/// The statement that changes a secret's value, and its name and description when given.
pub open spec fn update_sql(
    id: Seq<char>,
    value: Seq<char>,
    name: Option<Seq<char>>,
    desc: Option<Seq<char>>,
) -> Seq<char> {
    UPDATE_OPEN@ + escape_quotes(id) + seq!['\'', ',', ' '] + quoted(value) + comma()
        + quoted_or_null(name) + comma() + quoted_or_null(desc) + seq![')']
}

/// The statement that counts the secrets named `name`.
pub open spec fn count_sql(name: Seq<char>) -> Seq<char> {
    COUNT_OPEN@ + escape_quotes(name) + seq!['\'']
}

/// The client arguments that run `sql` on `db_url`, printing bare unaligned rows.
pub open spec fn query_args_spec(db_url: Seq<char>, sql: Seq<char>) -> Seq<Seq<char>> {
    seq![db_url, TUPLES_ONLY_FLAG@, UNALIGNED_FLAG@, COMMAND_FLAG@, sql]
}

/// Appends `s` with every single quote doubled.
pub fn push_escaped(out: &mut String, s: &str)
    ensures
        final(out)@ == old(out)@ + escape_quotes(s@),
{
    let v = chars_of(s);
    let ghost start = out@;
    let mut i: usize = 0;
    assert(v@.take(0) == Seq::<char>::empty());
    while i < v.len()
        invariant
            i <= v@.len(),
            v@ == s@,
            out@ == start + escape_quotes(v@.take(i as int)),
        decreases v@.len() - i,
    {
        let c = v[i];
        assert(v@.take(i + 1).drop_last() == v@.take(i as int));
        assert(v@.take(i + 1).last() == c);
        if c == '\'' {
            push_char(out, '\'');
            push_char(out, '\'');
        } else {
            push_char(out, c);
        }
        i = i + 1;
    }
    assert(v@.take(i as int) == v@);
}

/// `s` with every single quote doubled.
pub fn escape_literal(s: &str) -> (r: String)
    ensures
        r@ == escape_quotes(s@),
{
    let mut r = String::new();
    push_escaped(&mut r, s);
    r
}

fn push_quoted_or_null(out: &mut String, s: Option<&str>)
    ensures
        final(out)@ == old(out)@ + quoted_or_null(
            match s {
                Some(v) => Some(v@),
                None => None,
            },
        ),
{
    match s {
        Some(v) => {
            push_char(out, '\'');
            push_escaped(out, v);
            push_char(out, '\'');
        },
        None => out.append(NULL_SQL),
    }
}

fn push_separator(out: &mut String)
    ensures
        final(out)@ == old(out)@ + seq!['\'', ',', ' ', '\''],
{
    push_char(out, '\'');
    push_char(out, ',');
    push_char(out, ' ');
    push_char(out, '\'');
}

/// Whether a trimmed reply to `ENABLED_SQL` says the vault is installed.
pub open spec fn enabled_reply(out: Seq<char>) -> bool {
    out == seq!['t'] || out == seq!['t', 'r', 'u', 'e']
}

/// Whether a trimmed reply to a count statement says the secret exists: a
/// number above zero. None when the reply is not a number: the restore then
/// stops rather than guess, so that a live secret is never written over.
pub open spec fn exists_reply(out: Seq<char>) -> Option<bool> {
    match parse_i32_spec(out) {
        Some(n) => Some(n > 0),
        None => None,
    }
}

/// Relies on `chrono::Utc::now` and `DateTime::to_rfc3339`: the current time as
/// RFC 3339 text. Nothing is assumed of its value.
#[verifier::external_body]
fn now_rfc3339() -> String {
    chrono::Utc::now().to_rfc3339()
}

/// Whether the `i`-th secret of a restore is created: its name is not at the
/// target and no earlier secret of the restore has it.
pub open spec fn created_at(names: Seq<Seq<char>>, existing: Set<Seq<char>>, i: int) -> bool {
    !existing.contains(names[i]) && forall|j: int| 0 <= j < i ==> names[j] != names[i]
}

/// How many secrets a restore creates.
pub open spec fn count_created(names: Seq<Seq<char>>, existing: Set<Seq<char>>) -> nat
    decreases names.len(),
{
    if names.len() == 0 {
        0
    } else {
        count_created(names.drop_last(), existing) + if created_at(
            names,
            existing,
            names.len() - 1,
        ) {
            1nat
        } else {
            0nat
        }
    }
}

/// The names at the target when the `i`-th existence check is made: those that
/// were there, and those of the earlier secrets of the restore.
pub open spec fn target_before(names: Seq<Seq<char>>, existing: Set<Seq<char>>, i: int) -> Set<
    Seq<char>,
> {
    existing.union(names.take(i).to_set())
}

/// The names of a list of vault secrets.
pub open spec fn vault_names(v: Seq<VaultSecret>) -> Seq<Seq<char>> {
    v.map_values(|s: VaultSecret| s.name@)
}

proof fn lemma_count_created_prefix(names: Seq<Seq<char>>, existing: Set<Seq<char>>, k: int)
    requires
        0 <= k <= names.len(),
    ensures
        count_created(names.take(k), existing) <= k,
    decreases k,
{
    if k > 0 {
        assert(names.take(k).drop_last() == names.take(k - 1));
        lemma_count_created_prefix(names, existing, k - 1);
    }
}

proof fn lemma_count_created_below(names: Seq<Seq<char>>, existing: Set<Seq<char>>, i: int)
    requires
        0 <= i < names.len(),
        existing.contains(names[i]),
    ensures
        count_created(names, existing) < names.len(),
    decreases names.len(),
{
    let n = names.len() as int;
    let prev = names.drop_last();
    if i == n - 1 {
        lemma_count_created_prefix(names, existing, n - 1);
        assert(names.take(n - 1) == prev);
    } else {
        assert(prev[i] == names[i]);
        lemma_count_created_below(prev, existing, i);
    }
}

/// A restore into a target that answers each existence check truthfully
/// creates a secret only when its name is at the target neither from before
/// nor from an earlier secret of the same restore. So a name that is already
/// there is skipped, its secret is never written, and whenever one of the
/// secrets is already there fewer secrets are created than the backup holds.
pub proof fn lemma_restore_skips_existing(names: Seq<Seq<char>>, existing: Set<Seq<char>>)
    ensures
        forall|i: int|
            0 <= i < names.len() ==> (#[trigger] created_at(names, existing, i) <==> !target_before(
                names,
                existing,
                i,
            ).contains(names[i])),
        forall|i: int|
            0 <= i < names.len() && existing.contains(names[i]) ==> !#[trigger] created_at(
                names,
                existing,
                i,
            ),
        count_created(names, existing) <= names.len(),
        (exists|i: int| 0 <= i < names.len() && existing.contains(#[trigger] names[i]))
            ==> count_created(names, existing) < names.len(),
{
    assert forall|i: int| 0 <= i < names.len() implies (#[trigger] created_at(
        names,
        existing,
        i,
    ) <==> !target_before(names, existing, i).contains(names[i])) by {
        let pre = names.take(i);
        if pre.to_set().contains(names[i]) {
            let j = choose|j: int| 0 <= j < pre.len() && pre[j] == names[i];
            assert(names[j] == names[i]);
        }
        if exists|j: int| 0 <= j < i && names[j] == names[i] {
            let j = choose|j: int| 0 <= j < i && names[j] == names[i];
            assert(pre[j] == names[i]);
            assert(pre.to_set().contains(names[i]));
        }
    }
    lemma_count_created_prefix(names, existing, names.len() as int);
    assert(names.take(names.len() as int) == names);
    if exists|i: int| 0 <= i < names.len() && existing.contains(#[trigger] names[i]) {
        let i = choose|i: int| 0 <= i < names.len() && existing.contains(#[trigger] names[i]);
        lemma_count_created_below(names, existing, i);
    }
}

/// One step of a restore against a target that answers truthfully: the
/// secret at `k` is checked against the names there (those from before and
/// those of the earlier secrets); when absent it is created and the count of
/// created secrets grows by one, else it is skipped and the count stays.
/// This is what `VaultRestore::record` does with the answer.
pub proof fn lemma_restore_step(names: Seq<Seq<char>>, existing: Set<Seq<char>>, k: int)
    requires
        0 <= k < names.len(),
    ensures
        count_created(names.take(k + 1), existing) == count_created(names.take(k), existing) + if target_before(
            names,
            existing,
            k,
        ).contains(names[k]) {
            0nat
        } else {
            1nat
        },
{
    lemma_restore_skips_existing(names, existing);
    let p = names.take(k + 1);
    assert(p.drop_last() == names.take(k));
    assert(p[k] == names[k]);
    assert(created_at(p, existing, k) == created_at(names, existing, k)) by {
        assert forall|j: int| 0 <= j < k implies p[j] == names[j] by {}
    }
    assert(created_at(names, existing, k) <==> !target_before(names, existing, k).contains(
        names[k],
    ));
}

/// What listing the secrets does next.
pub enum ListAction {
    /// Nothing to query: these are the secrets.
    Finished(Vec<VaultSecret>),
    /// Run this query; its reply goes to `VaultClient::list_secrets`.
    Query(Vec<String>),
}

/// How `VaultRestore::record` moves a restore on from `a` to `b`, given the
/// answer `exists` to the last existence check.
pub open spec fn record_step(a: VaultRestore, b: VaultRestore, exists: bool) -> bool {
    &&& a.spec_pending_create() ==> b.spec_next() == a.spec_next() + 1 && b.spec_created()
        == a.spec_created() + 1 && !b.spec_pending_create()
    &&& !a.spec_pending_create() && exists ==> b.spec_next() == a.spec_next() + 1
        && b.spec_created() == a.spec_created() && !b.spec_pending_create()
    &&& !a.spec_pending_create() && !exists ==> b.spec_next() == a.spec_next()
        && b.spec_created() == a.spec_created() && b.spec_pending_create()
}

/// A restore of secrets named `names` into a target that held `existing`
/// stands where the model says: the secrets before `next` are handled, as
/// many were created as the model creates among them, and a creation is
/// pending only for a name that is not at the target.
pub open spec fn restore_consistent(
    st: VaultRestore,
    names: Seq<Seq<char>>,
    existing: Set<Seq<char>>,
) -> bool {
    &&& st.spec_next() <= names.len()
    &&& st.spec_created() == count_created(names.take(st.spec_next() as int), existing)
    &&& st.spec_pending_create() ==> st.spec_next() < names.len() && !target_before(
        names,
        existing,
        st.spec_next() as int,
    ).contains(names[st.spec_next() as int])
}

/// A restore that has not started stands where the model says.
pub proof fn lemma_restore_start(st: VaultRestore, names: Seq<Seq<char>>, existing: Set<Seq<char>>)
    requires
        st.spec_next() == 0,
        st.spec_created() == 0,
        !st.spec_pending_create(),
    ensures
        restore_consistent(st, names, existing),
{
    assert(names.take(0).len() == 0);
}

/// Recording a truthful answer keeps a restore where the model says: the
/// answer to an existence check is whether the name is at the target, which
/// holds the names from before and those created so far.
pub proof fn lemma_restore_record(
    a: VaultRestore,
    b: VaultRestore,
    names: Seq<Seq<char>>,
    existing: Set<Seq<char>>,
    exists: bool,
)
    requires
        restore_consistent(a, names, existing),
        a.spec_next() < names.len(),
        record_step(a, b, exists),
        !a.spec_pending_create() ==> exists == target_before(
            names,
            existing,
            a.spec_next() as int,
        ).contains(names[a.spec_next() as int]),
    ensures
        restore_consistent(b, names, existing),
{
    lemma_restore_step(names, existing, a.spec_next() as int);
}

/// While a restore stands where the model says, a creation is never issued
/// for a name that was at the target; when it has handled every secret, the
/// count it gives is the model's, and it is below the number of secrets as
/// soon as one of their names was at the target.
pub proof fn lemma_restore_outcome(st: VaultRestore, names: Seq<Seq<char>>, existing: Set<Seq<char>>)
    requires
        restore_consistent(st, names, existing),
    ensures
        st.spec_pending_create() ==> !existing.contains(names[st.spec_next() as int]),
        st.spec_next() >= names.len() ==> st.spec_created() == count_created(names, existing),
        st.spec_next() >= names.len() && (exists|i: int|
            0 <= i < names.len() && existing.contains(#[trigger] names[i])) ==> st.spec_created()
            < names.len(),
{
    lemma_restore_skips_existing(names, existing);
    if st.spec_next() >= names.len() {
        assert(names.take(names.len() as int) == names);
    }
}

/// Where a restore stands: the next secret, how many were created, and whether
/// the next secret was found absent and is to be created.
pub struct VaultRestore {
    next: usize,
    created: usize,
    pending_create: bool,
}

/// What a restore does next.
pub enum RestoreAction {
    /// Run the count statement for the secret at `index`; answer whether it exists.
    CheckExists { index: usize, args: Vec<String> },
    /// Run the statement that creates the secret at `index`.
    Create { index: usize, args: Vec<String> },
    /// Every secret was handled; `created` were created.
    Finished { created: usize },
}

impl VaultRestore {
    pub closed spec fn spec_next(&self) -> nat {
        self.next as nat
    }

    pub closed spec fn spec_created(&self) -> nat {
        self.created as nat
    }

    pub closed spec fn spec_pending_create(&self) -> bool {
        self.pending_create
    }

    /// A restore that has not started.
    pub fn new() -> (r: VaultRestore)
        ensures
            r.spec_next() == 0,
            r.spec_created() == 0,
            !r.spec_pending_create(),
    {
        VaultRestore { next: 0, created: 0, pending_create: false }
    }

    /// Takes in the outcome of the action last returned for a secret: for an
    /// existence check, whether the secret exists (it is then skipped, else
    /// created next); for a creation, that it succeeded.
    pub fn record(&mut self, exists: bool)
        requires
            old(self).spec_next() < usize::MAX,
            old(self).spec_created() <= old(self).spec_next(),
        ensures
            final(self).spec_created() <= final(self).spec_next(),
            record_step(*old(self), *final(self), exists),
    {
        if self.pending_create {
            self.next = self.next + 1;
            self.created = self.created + 1;
            self.pending_create = false;
        } else if exists {
            self.next = self.next + 1;
        } else {
            self.pending_create = true;
        }
    }

    /// How many secrets were created so far.
    pub fn created(&self) -> (r: usize)
        ensures
            r == self.spec_created(),
    {
        self.created
    }
}

impl VaultClient {
    pub closed spec fn spec_db_url(&self) -> Seq<char> {
        self.db_url@
    }

    pub fn new(db_url: String) -> (r: VaultClient)
        ensures
            r.spec_db_url() == db_url@,
    {
        VaultClient { db_url }
    }

    /// The client arguments that run `sql` on this database.
    pub fn query_args(&self, sql: String) -> (r: Vec<String>)
        ensures
            views(r@) == query_args_spec(self.spec_db_url(), sql@),
    {
        let r = vec![
            copy_string(&self.db_url),
            String::from_str(TUPLES_ONLY_FLAG),
            String::from_str(UNALIGNED_FLAG),
            String::from_str(COMMAND_FLAG),
            sql,
        ];
        assert(views(r@) == query_args_spec(self.spec_db_url(), sql@));
        r
    }

    /// The reply of a query run: its output without surrounding white space,
    /// or, when the client failed, a vault error that carries its diagnostics.
    pub fn query_reply(success: bool, stdout: &str, stderr: &str) -> (r: Result<String, MigrateError>)
        ensures
            success ==> (r matches Ok(out) && out@ == trim(stdout@)),
            !success ==> (r matches Err(MigrateError::Vault(m)) && m@ == QUERY_FAILED@ + stderr@),
    {
        if success {
            let v = chars_of(stdout);
            let (a, b) = trim_range(&v, 0, v.len());
            assert(v@.subrange(0, v@.len() as int) == v@);
            Ok(crate::text::string_of(&v, a, b))
        } else {
            let mut m = String::from_str(QUERY_FAILED);
            m.append(stderr);
            Err(MigrateError::Vault(m))
        }
    }

    /// Reads the reply to `ENABLED_SQL`.
    pub fn is_vault_enabled(reply: &str) -> (r: bool)
        ensures
            r == enabled_reply(reply@),
    {
        proof {
            reveal_strlit("t");
            reveal_strlit("true");
            assert("t"@ == seq!['t']);
            assert("true"@ == seq!['t', 'r', 'u', 'e']);
        }
        same_text(reply, "t") || same_text(reply, "true")
    }

    /// Checks the reply to `LIST_SQL` before it is decoded: an empty reply is
    /// an error, anything else is the JSON text of the secrets.
    pub fn list_secrets(reply: String) -> (r: Result<String, MigrateError>)
        ensures
            reply@.len() == 0 ==> (r matches Err(MigrateError::Vault(m)) && m@ == EMPTY_RESPONSE@),
            reply@.len() > 0 ==> (r matches Ok(json) && json@ == reply@),
    {
        if reply.as_str().is_empty() {
            Err(MigrateError::Vault(String::from_str(EMPTY_RESPONSE)))
        } else {
            Ok(reply)
        }
    }

    /// The client arguments that create a secret, quotes escaped.
    pub fn create_secret(&self, name: &str, value: &str, description: Option<&str>) -> (r: Vec<
        String,
    >)
        ensures
            views(r@) == query_args_spec(
                self.spec_db_url(),
                create_sql(
                    name@,
                    value@,
                    match description {
                        Some(d) => Some(d@),
                        None => None,
                    },
                ),
            ),
    {
        let mut sql = String::from_str(CREATE_OPEN);
        push_escaped(&mut sql, name);
        push_separator(&mut sql);
        push_escaped(&mut sql, value);
        match description {
            Some(d) => {
                push_separator(&mut sql);
                push_escaped(&mut sql, d);
            },
            None => {},
        }
        sql.append(CREATE_CLOSE);
        assert(sql@ == create_sql(
            name@,
            value@,
            match description {
                Some(d) => Some(d@),
                None => None,
            },
        ));
        self.query_args(sql)
    }

    /// The client arguments that change a secret: its value, and its name and
    /// description where given (left as they are otherwise).
    pub fn update_secret(
        &self,
        id: &str,
        new_value: &str,
        new_name: Option<&str>,
        new_description: Option<&str>,
    ) -> (r: Vec<String>)
        ensures
            views(r@) == query_args_spec(
                self.spec_db_url(),
                update_sql(
                    id@,
                    new_value@,
                    match new_name {
                        Some(d) => Some(d@),
                        None => None,
                    },
                    match new_description {
                        Some(d) => Some(d@),
                        None => None,
                    },
                ),
            ),
    {
        let mut sql = String::from_str(UPDATE_OPEN);
        push_escaped(&mut sql, id);
        push_char(&mut sql, '\'');
        push_char(&mut sql, ',');
        push_char(&mut sql, ' ');
        push_quoted_or_null(&mut sql, Some(new_value));
        push_char(&mut sql, ',');
        push_char(&mut sql, ' ');
        push_quoted_or_null(&mut sql, new_name);
        push_char(&mut sql, ',');
        push_char(&mut sql, ' ');
        push_quoted_or_null(&mut sql, new_description);
        push_char(&mut sql, ')');
        assert(sql@ == update_sql(
            id@,
            new_value@,
            match new_name {
                Some(d) => Some(d@),
                None => None,
            },
            match new_description {
                Some(d) => Some(d@),
                None => None,
            },
        ));
        self.query_args(sql)
    }

    /// The client arguments that count the secrets named `name`.
    pub fn count_by_name(&self, name: &str) -> (r: Vec<String>)
        ensures
            views(r@) == query_args_spec(self.spec_db_url(), count_sql(name@)),
    {
        let mut sql = String::from_str(COUNT_OPEN);
        push_escaped(&mut sql, name);
        push_char(&mut sql, '\'');
        assert(sql@ == count_sql(name@));
        self.query_args(sql)
    }

    /// The backup of the secrets just read, stamped with the current time.
    pub fn backup(&self, secrets: Vec<VaultSecret>) -> (r: VaultBackup)
        ensures
            r.secrets@ == secrets@,
    {
        VaultBackup { secrets, exported_at: now_rfc3339() }
    }

    /// The next action of a restore of `backup` from state `state`: check the
    /// next secret's name, create it once it was found absent, or finish with
    /// the number created. A secret found at the target is never written.
    pub fn restore(&self, backup: &VaultBackup, state: &VaultRestore) -> (r: RestoreAction)
        ensures
            state.spec_next() >= backup.secrets@.len() ==> (r matches RestoreAction::Finished {
                created,
            } && created == state.spec_created()),
            state.spec_next() < backup.secrets@.len() && state.spec_pending_create() ==> (
            r matches RestoreAction::Create { index, args } && index == state.spec_next() && ({
                let s = backup.secrets@[index as int];
                views(args@) == query_args_spec(
                    self.spec_db_url(),
                    create_sql(
                        s.name@,
                        s.secret@,
                        match s.description {
                            Some(d) => Some(d@),
                            None => None,
                        },
                    ),
                )
            })),
            state.spec_next() < backup.secrets@.len() && !state.spec_pending_create() ==> (
            r matches RestoreAction::CheckExists { index, args } && index == state.spec_next()
                && views(args@) == query_args_spec(
                self.spec_db_url(),
                count_sql(backup.secrets@[index as int].name@),
            )),
    {
        if state.next >= backup.secrets.len() {
            return RestoreAction::Finished { created: state.created };
        }
        let s = &backup.secrets[state.next];
        if state.pending_create {
            let desc: Option<&str> = match &s.description {
                Some(d) => Some(d.as_str()),
                None => None,
            };
            let args = self.create_secret(s.name.as_str(), s.secret.as_str(), desc);
            RestoreAction::Create { index: state.next, args }
        } else {
            RestoreAction::CheckExists { index: state.next, args: self.count_by_name(s.name.as_str()) }
        }
    }

    /// Reads the reply to a count statement; a reply that is not a number is a
    /// vault error.
    pub fn exists_from_reply(reply: &str) -> (r: Result<bool, MigrateError>)
        ensures
            match exists_reply(reply@) {
                Some(b) => r == Ok::<bool, MigrateError>(b),
                None => r matches Err(MigrateError::Vault(m)) && m@ == UNREADABLE_COUNT@ + reply@,
            },
    {
        let v = chars_of(reply);
        assert(v@.subrange(0, v@.len() as int) == v@);
        match parse_i32_at(&v, 0, v.len()) {
            Some(n) => Ok(n > 0),
            None => {
                let mut m = String::from_str(UNREADABLE_COUNT);
                m.append(reply);
                Err(MigrateError::Vault(m))
            },
        }
    }

    /// The first step of listing the secrets, given the answer to the enabled
    /// check: a vault that is not enabled has no secrets to list and is not
    /// queried; an enabled one is asked for all its secrets with `LIST_SQL`.
    pub fn list_action(&self, enabled: bool) -> (r: ListAction)
        ensures
            !enabled ==> (r matches ListAction::Finished(v) && v@.len() == 0),
            enabled ==> (r matches ListAction::Query(args) && views(args@) == query_args_spec(
                self.spec_db_url(),
                LIST_SQL@,
            )),
    {
        if enabled {
            ListAction::Query(self.query_args(String::from_str(LIST_SQL)))
        } else {
            ListAction::Finished(Vec::new())
        }
    }
}

/// The vault part of a backup: none when the vault is not enabled or holds
/// no secret, else the secrets read, stamped with the current time.
pub fn backup_vault(client: &VaultClient, enabled: bool, secrets: Vec<VaultSecret>) -> (r: Option<
    VaultBackup,
>)
    ensures
        r is None <==> !enabled || secrets@.len() == 0,
        r matches Some(b) ==> b.secrets@ == secrets@,
{
    if !enabled {
        return None;
    }
    let backup = client.backup(secrets);
    if backup.secrets.len() == 0 {
        return None;
    }
    Some(backup)
}

/// Starts restoring vault secrets into a target: refused when the target's
/// vault is not enabled, since the restore was asked for explicitly.
pub fn restore_vault(enabled: bool) -> (r: Result<VaultRestore, MigrateError>)
    ensures
        !enabled ==> (r matches Err(MigrateError::FeatureUnavailable(m)) && m@ == VAULT_DISABLED@),
        enabled ==> (r matches Ok(st) && st.spec_next() == 0 && st.spec_created() == 0
            && !st.spec_pending_create()),
{
    if !enabled {
        return Err(MigrateError::FeatureUnavailable(String::from_str(VAULT_DISABLED)));
    }
    Ok(VaultRestore::new())
}

} // verus!
