//! Choosing a dump binary and the arguments of a dump run.

use vstd::prelude::*;
use crate::error::MigrateError;
use crate::numbers::{decimal_of, parse_u32_at, parse_u32_spec, push_decimal};
use crate::text::{chars_of, copy_string, trim, trim_range, views};

verus! {

/// The platform whose installation layout is searched.
#[derive(Clone, Copy, PartialEq, Eq, Structural, Debug)]
pub enum TargetOs {
    MacOs,
    Linux,
}

/// The binary used when no versioned installation is found: whatever `PATH` gives.
pub const PG_DUMP: &'static str = "pg_dump";

pub const HOMEBREW_ARM_PREFIX: &'static str = "/opt/homebrew/opt/postgresql@";
pub const HOMEBREW_INTEL_PREFIX: &'static str = "/usr/local/opt/postgresql@";
pub const POSTGRES_APP_PREFIX: &'static str = "/Applications/Postgres.app/Contents/Versions/";
pub const DEBIAN_PREFIX: &'static str = "/usr/lib/postgresql/";
pub const REDHAT_PREFIX: &'static str = "/usr/pgsql-";
pub const BINARY_SUFFIX: &'static str = "/bin/pg_dump";

/// How many later major versions than the server's are tried.
pub const VERSION_SPAN: u32 = 3;

/// The installation directories searched on `os`, in order, up to the version number.
pub open spec fn path_prefixes(os: TargetOs) -> Seq<Seq<char>> {
    match os {
        TargetOs::MacOs => seq![HOMEBREW_ARM_PREFIX@, HOMEBREW_INTEL_PREFIX@, POSTGRES_APP_PREFIX@],
        TargetOs::Linux => seq![DEBIAN_PREFIX@, REDHAT_PREFIX@],
    }
}

/// The `i`-th place searched for a binary: versions ascending from `major`,
/// each in every installation directory.
pub open spec fn candidate_path(os: TargetOs, major: nat, i: int) -> Seq<char> {
    let k = path_prefixes(os).len() as int;
    path_prefixes(os)[i % k] + decimal_of(major + (i / k) as nat) + BINARY_SUFFIX@
}

/// All places searched for a binary compatible with server version `major`.
pub open spec fn candidates(os: TargetOs, major: nat) -> Seq<Seq<char>> {
    let k = path_prefixes(os).len() as int;
    Seq::new(((VERSION_SPAN + 1) * k) as nat, |i: int| candidate_path(os, major, i))
}

/// The major version that the candidate at index `i` is built for.
pub open spec fn candidate_version(os: TargetOs, major: nat, i: int) -> int {
    major + i / (path_prefixes(os).len() as int)
}

pub open spec fn present_at(p: Seq<bool>, i: int) -> bool {
    0 <= i < p.len() && p[i]
}

/// The first index from `i` below `n` at which `p` says present.
pub open spec fn first_present_from(p: Seq<bool>, i: int, n: int) -> Option<int>
    decreases n - i,
{
    if i >= n {
        None
    } else if present_at(p, i) {
        Some(i)
    } else {
        first_present_from(p, i + 1, n)
    }
}

/// The binary chosen for server version `major` when `present[i]` says whether
/// the `i`-th candidate exists.
pub open spec fn chosen_binary(os: TargetOs, major: nat, present: Seq<bool>) -> Seq<char> {
    match first_present_from(present, 0, candidates(os, major).len() as int) {
        Some(i) => candidates(os, major)[i],
        None => PG_DUMP@,
    }
}

fn prefixes(os: TargetOs) -> (r: Vec<&'static str>)
    ensures
        r@.map_values(|p: &'static str| p@) == path_prefixes(os),
{
    match os {
        TargetOs::MacOs => {
            let r = vec![HOMEBREW_ARM_PREFIX, HOMEBREW_INTEL_PREFIX, POSTGRES_APP_PREFIX];
            assert(r@.map_values(|p: &'static str| p@) == path_prefixes(os));
            r
        },
        TargetOs::Linux => {
            let r = vec![DEBIAN_PREFIX, REDHAT_PREFIX];
            assert(r@.map_values(|p: &'static str| p@) == path_prefixes(os));
            r
        },
    }
}

/// Every place to look for a dump binary that can serve a server of version
/// `server_major`: versions `server_major` to `server_major + 3`, ascending,
/// each in the platform's installation directories in a fixed order.
pub fn candidate_paths(server_major: u32, os: TargetOs) -> (r: Vec<String>)
    ensures
        views(r@) == candidates(os, server_major as nat),
{
    let ps = prefixes(os);
    let k = ps.len();
    let ghost want = candidates(os, server_major as nat);
    let mut r: Vec<String> = Vec::new();
    let mut offset: u32 = 0;
    while offset <= VERSION_SPAN
        invariant
            offset <= VERSION_SPAN + 1,
            k == path_prefixes(os).len(),
            k == 2 || k == 3,
            ps@.map_values(|p: &'static str| p@) == path_prefixes(os),
            want == candidates(os, server_major as nat),
            views(r@) == want.take(offset * k),
        decreases VERSION_SPAN + 1 - offset,
    {
        let mut j: usize = 0;
        while j < k
            invariant
                offset <= VERSION_SPAN,
                j <= k,
                k == path_prefixes(os).len(),
                k == 2 || k == 3,
                ps@.map_values(|p: &'static str| p@) == path_prefixes(os),
                want == candidates(os, server_major as nat),
                views(r@) == want.take(offset * k + j),
            decreases k - j,
        {
            let mut path = String::from_str(ps[j]);
            push_decimal(&mut path, server_major as u64 + offset as u64);
            path.append(BINARY_SUFFIX);
            proof {
                let i = offset * k + j;
                assert(i / (k as int) == offset) by (nonlinear_arith)
                    requires i == offset * k + j, 0 <= j < k;
                assert(i % (k as int) == j) by (nonlinear_arith)
                    requires i == offset * k + j, 0 <= j < k;
                assert(ps@[j as int]@ == path_prefixes(os)[j as int]);
                assert(i < (VERSION_SPAN + 1) * k) by (nonlinear_arith)
                    requires i == offset * k + j, 0 <= j < k, offset <= VERSION_SPAN;
                assert(path@ == want[i]);
                assert(want.take(i + 1) == want.take(i).push(want[i]));
            }
            r.push(path);
            j = j + 1;
        }
        offset = offset + 1;
        assert(offset * k == (offset - 1) * k + k) by (nonlinear_arith);
    }
    assert(want.len() == (VERSION_SPAN + 1) * k);
    assert(want.take(offset * k) == want);
    r
}

/// The index of the first entry of `present` that is true, below `n`.
fn first_present(present: &Vec<bool>, n: usize) -> (r: Option<usize>)
    ensures
        match r {
            Some(i) => i < n && first_present_from(present@, 0, n as int) == Some(i as int),
            None => first_present_from(present@, 0, n as int) is None,
        },
{
    let mut i: usize = 0;
    while i < n
        invariant
            i <= n,
            first_present_from(present@, 0, n as int) == first_present_from(
                present@,
                i as int,
                n as int,
            ),
        decreases n - i,
    {
        if i < present.len() && present[i] {
            return Some(i);
        }
        i = i + 1;
    }
    None
}

/// The dump binary for a server of major version `server_major`: the first
/// candidate of `candidate_paths` that `present` marks as existing (a missing
/// entry counts as absent), else the one on `PATH`.
pub fn find_compatible_pg_dump(server_major: u32, os: TargetOs, present: &Vec<bool>) -> (r: String)
    ensures
        r@ == chosen_binary(os, server_major as nat, present@),
{
    let mut cands = candidate_paths(server_major, os);
    let ghost vs = views(cands@);
    let ghost want = candidates(os, server_major as nat);
    assert(vs.len() == cands@.len());
    assert(vs == want);
    let found = first_present(present, cands.len());
    assert(first_present_from(present@, 0, want.len() as int) == first_present_from(
        present@,
        0,
        cands.len() as int,
    ));
    match found {
        Some(i) => {
            let path = cands.swap_remove(i);
            assert(path@ == vs[i as int]);
            path
        },
        None => String::from_str(PG_DUMP),
    }
}

/// Whether a binary built for major version `w` exists among the candidates.
pub open spec fn version_present(os: TargetOs, major: nat, present: Seq<bool>, w: int) -> bool {
    let k = path_prefixes(os).len() as int;
    exists|t: int| 0 <= t < k && #[trigger] present_at(present, (w - major) * k + t)
}

proof fn lemma_first_present(p: Seq<bool>, i: int, n: int)
    requires
        0 <= i,
    ensures
        match first_present_from(p, i, n) {
            Some(j) => i <= j < n && present_at(p, j) && forall|l: int|
                i <= l < j ==> !present_at(p, l),
            None => forall|l: int| i <= l < n ==> !present_at(p, l),
        },
    decreases n - i,
{
    if i < n && !present_at(p, i) {
        lemma_first_present(p, i + 1, n);
    }
}

/// The binary chosen is built for the lowest major version, from the server's
/// own to `VERSION_SPAN` above it, of which a binary exists: never one below the
/// server's. When none of those exists, the one on `PATH` is used.
pub proof fn lemma_picks_lowest_compatible(os: TargetOs, major: nat, present: Seq<bool>)
    ensures
        match first_present_from(present, 0, candidates(os, major).len() as int) {
            Some(i) => {
                let v = candidate_version(os, major, i);
                &&& major <= v <= major + VERSION_SPAN
                &&& version_present(os, major, present, v)
                &&& chosen_binary(os, major, present) == path_prefixes(os)[i % path_prefixes(
                    os,
                ).len() as int] + decimal_of(v as nat) + BINARY_SUFFIX@
                &&& forall|w: int| major <= w < v ==> !version_present(os, major, present, w)
            },
            None => {
                &&& chosen_binary(os, major, present) == PG_DUMP@
                &&& forall|w: int|
                    major <= w <= major + VERSION_SPAN ==> !version_present(os, major, present, w)
            },
        },
{
    let k = path_prefixes(os).len() as int;
    let n = candidates(os, major).len() as int;
    assert(k == 2 || k == 3);
    assert(n == 4 * k);
    lemma_first_present(present, 0, n);
    match first_present_from(present, 0, n) {
        Some(i) => {
            let q = i / k;
            let v = major + q;
            assert(0 <= q <= 3 && q * k <= i && i == q * k + i % k && 0 <= i % k < k) by (
            nonlinear_arith)
                requires 0 <= i < 4 * k, k > 0, q == i / k;
            assert(present_at(present, (v - major) * k + i % k));
            assert forall|w: int| major <= w < v implies !version_present(os, major, present, w) by {
                assert forall|t: int| 0 <= t < k implies !#[trigger] present_at(present, (w - major) * k + t) by {
                    assert(0 <= (w - major) * k + t < q * k) by (nonlinear_arith)
                        requires 0 <= w - major < q, 0 <= t < k;
                }
            }
        },
        None => {
            assert forall|w: int| major <= w <= major + VERSION_SPAN implies !version_present(
                os,
                major,
                present,
                w,
            ) by {
                assert forall|t: int| 0 <= t < k implies !#[trigger] present_at(present, (w - major) * k + t) by {
                    assert(0 <= (w - major) * k + t < 4 * k) by (nonlinear_arith)
                        requires 0 <= w - major <= 3, 0 <= t < k;
                }
            }
        },
    }
}

/// The binary to dump with: a versioned one when the server's major version is
/// known, else the one on `PATH`.
pub fn resolve_dump_binary(server_major: Option<u32>, os: TargetOs, present: &Vec<bool>) -> (r:
    String)
    ensures
        r@ == match server_major {
            Some(m) => chosen_binary(os, m as nat, present@),
            None => PG_DUMP@,
        },
{
    match server_major {
        Some(m) => find_compatible_pg_dump(m, os, present),
        None => String::from_str(PG_DUMP),
    }
}

/// The major version in the output of `SHOW server_version_num`.
pub open spec fn major_of_output(out: Seq<char>) -> Option<nat> {
    match parse_u32_spec(trim(out)) {
        Some(n) => Some(n / 10000),
        None => None,
    }
}

/// Reads the server's protocol version number, as the version query prints
/// it, and gives the major version (`150001` gives `15`). Text that is not a
/// number gives none.
pub fn server_major_from_output(out: &str) -> (r: Option<u32>)
    ensures
        match major_of_output(out@) {
            Some(m) => r == Some(m as u32),
            None => r is None,
        },
{
    let v = chars_of(out);
    let (a, b) = trim_range(&v, 0, v.len());
    assert(v@.subrange(0, v@.len() as int) == v@);
    match parse_u32_at(&v, a, b) {
        Some(n) => Some(n / 10000),
        None => None,
    }
}

pub const CLEAN_FLAG: &'static str = "--clean";
pub const IF_EXISTS_FLAG: &'static str = "--if-exists";
pub const QUOTE_ALL_FLAG: &'static str = "--quote-all-identifiers";
pub const SCHEMA_ONLY_FLAG: &'static str = "--schema-only";
pub const DATA_ONLY_FLAG: &'static str = "--data-only";
/// Object rows are reconciled by the storage transfer, never by row replication.
pub const EXCLUDE_STORAGE_DATA_FLAG: &'static str = "--exclude-table-data=storage.objects";
pub const EXCLUDE_SCHEMA_FLAG: &'static str = "--exclude-schema=";
pub const EXCLUDE_TABLE_FLAG: &'static str = "--exclude-table=";
pub const ALL_SCHEMAS_FLAG: &'static str = "--schema=*";
pub const OUTPUT_FLAG: &'static str = "-f";

/// The parts joined by `|`, the alternation of a name pattern.
pub open spec fn join_bar(parts: Seq<Seq<char>>) -> Seq<char>
    decreases parts.len(),
{
    if parts.len() == 0 {
        Seq::empty()
    } else if parts.len() == 1 {
        parts[0]
    } else {
        join_bar(parts.drop_last()).push('|') + parts.last()
    }
}

/// The arguments of one dump run, in order: the connection, clean/if-exists
/// and quoted-identifier semantics, the schema/data-only choice, the exclusion
/// of storage object rows, one alternation pattern for the excluded schemas,
/// one flag per excluded table, every schema, and the output file if any.
pub open spec fn dump_args_spec(
    db_url: Seq<char>,
    schemas: Seq<Seq<char>>,
    tables: Seq<Seq<char>>,
    schema_only: bool,
    data_only: bool,
    output: Option<Seq<char>>,
) -> Seq<Seq<char>> {
    seq![db_url, CLEAN_FLAG@, IF_EXISTS_FLAG@, QUOTE_ALL_FLAG@] + (if schema_only {
        seq![SCHEMA_ONLY_FLAG@]
    } else {
        Seq::empty()
    }) + (if data_only {
        seq![DATA_ONLY_FLAG@]
    } else {
        Seq::empty()
    }) + seq![EXCLUDE_STORAGE_DATA_FLAG@] + (if schemas.len() > 0 {
        seq![EXCLUDE_SCHEMA_FLAG@ + join_bar(schemas)]
    } else {
        Seq::empty()
    }) + tables.map_values(|t: Seq<char>| EXCLUDE_TABLE_FLAG@ + t) + seq![ALL_SCHEMAS_FLAG@]
        + match output {
        Some(p) => seq![OUTPUT_FLAG@, p],
        None => Seq::empty(),
    }
}

/// Joins `parts` with `|`.
pub fn join_alternation(parts: &Vec<String>) -> (r: String)
    ensures
        r@ == join_bar(views(parts@)),
{
    let ghost ps = views(parts@);
    if parts.len() == 0 {
        return String::new();
    }
    let mut r = copy_string(&parts[0]);
    let mut i: usize = 1;
    assert(ps.take(1) == seq![ps[0]]);
    while i < parts.len()
        invariant
            1 <= i <= parts@.len(),
            ps == views(parts@),
            r@ == join_bar(ps.take(i as int)),
        decreases parts@.len() - i,
    {
        crate::text::push_char(&mut r, '|');
        r.append(parts[i].as_str());
        assert(ps.take(i + 1).drop_last() == ps.take(i as int));
        i = i + 1;
    }
    assert(ps.take(i as int) == ps);
    r
}

/// A dump of one database: the connection, the binary that runs it, and the
/// filters it is run with.
pub struct PgDump {
    db_url: String,
    binary_path: String,
    excluded_schemas: Vec<String>,
    excluded_tables: Vec<String>,
    schema_only: bool,
    data_only: bool,
}

impl PgDump {
    pub closed spec fn spec_db_url(&self) -> Seq<char> {
        self.db_url@
    }

    pub closed spec fn spec_binary_path(&self) -> Seq<char> {
        self.binary_path@
    }

    pub closed spec fn spec_excluded_schemas(&self) -> Seq<Seq<char>> {
        views(self.excluded_schemas@)
    }

    pub closed spec fn spec_excluded_tables(&self) -> Seq<Seq<char>> {
        views(self.excluded_tables@)
    }

    pub closed spec fn spec_schema_only(&self) -> bool {
        self.schema_only
    }

    pub closed spec fn spec_data_only(&self) -> bool {
        self.data_only
    }

    /// A dump of `db_url` run with `binary_path`, with no filter.
    pub fn new(db_url: String, binary_path: String) -> (r: PgDump)
        ensures
            r.spec_db_url() == db_url@,
            r.spec_binary_path() == binary_path@,
            r.spec_excluded_schemas() == Seq::<Seq<char>>::empty(),
            r.spec_excluded_tables() == Seq::<Seq<char>>::empty(),
            !r.spec_schema_only(),
            !r.spec_data_only(),
    {
        let r = PgDump {
            db_url,
            binary_path,
            excluded_schemas: Vec::new(),
            excluded_tables: Vec::new(),
            schema_only: false,
            data_only: false,
        };
        assert(views(r.excluded_schemas@) == Seq::<Seq<char>>::empty());
        assert(views(r.excluded_tables@) == Seq::<Seq<char>>::empty());
        r
    }

    /// The binary that runs the dump.
    pub fn binary_path(&self) -> (r: &String)
        ensures
            r@ == self.spec_binary_path(),
    {
        &self.binary_path
    }

    /// The same dump, run with `binary_path`.
    pub fn with_binary(self, binary_path: String) -> (r: PgDump)
        ensures
            r.spec_binary_path() == binary_path@,
            r.spec_db_url() == self.spec_db_url(),
            r.spec_excluded_schemas() == self.spec_excluded_schemas(),
            r.spec_excluded_tables() == self.spec_excluded_tables(),
            r.spec_schema_only() == self.spec_schema_only(),
            r.spec_data_only() == self.spec_data_only(),
    {
        PgDump { binary_path, ..self }
    }

    /// The same dump with these schemas left out.
    pub fn exclude_schemas(self, schemas: Vec<String>) -> (r: PgDump)
        ensures
            r.spec_excluded_schemas() == views(schemas@),
            r.spec_db_url() == self.spec_db_url(),
            r.spec_binary_path() == self.spec_binary_path(),
            r.spec_excluded_tables() == self.spec_excluded_tables(),
            r.spec_schema_only() == self.spec_schema_only(),
            r.spec_data_only() == self.spec_data_only(),
    {
        PgDump { excluded_schemas: schemas, ..self }
    }

    /// The same dump with these tables left out.
    pub fn exclude_tables(self, tables: Vec<String>) -> (r: PgDump)
        ensures
            r.spec_excluded_tables() == views(tables@),
            r.spec_db_url() == self.spec_db_url(),
            r.spec_binary_path() == self.spec_binary_path(),
            r.spec_excluded_schemas() == self.spec_excluded_schemas(),
            r.spec_schema_only() == self.spec_schema_only(),
            r.spec_data_only() == self.spec_data_only(),
    {
        PgDump { excluded_tables: tables, ..self }
    }

    /// The same dump, of the schema alone when `value` holds.
    pub fn schema_only(self, value: bool) -> (r: PgDump)
        ensures
            r.spec_schema_only() == value,
            r.spec_db_url() == self.spec_db_url(),
            r.spec_binary_path() == self.spec_binary_path(),
            r.spec_excluded_schemas() == self.spec_excluded_schemas(),
            r.spec_excluded_tables() == self.spec_excluded_tables(),
            r.spec_data_only() == self.spec_data_only(),
    {
        PgDump { schema_only: value, ..self }
    }

    /// The same dump, of the data alone when `value` holds.
    pub fn data_only(self, value: bool) -> (r: PgDump)
        ensures
            r.spec_data_only() == value,
            r.spec_db_url() == self.spec_db_url(),
            r.spec_binary_path() == self.spec_binary_path(),
            r.spec_excluded_schemas() == self.spec_excluded_schemas(),
            r.spec_excluded_tables() == self.spec_excluded_tables(),
            r.spec_schema_only() == self.spec_schema_only(),
    {
        PgDump { data_only: value, ..self }
    }

    /// The arguments to run the dump binary with, writing to `output` when given
    /// and to standard output otherwise. A dump asked for the schema alone and
    /// the data alone at once is refused here, before any process is started.
    pub fn dump_args(&self, output: Option<String>) -> (r: Result<Vec<String>, MigrateError>)
        ensures
            r is Err <==> self.spec_schema_only() && self.spec_data_only(),
            r matches Err(e) ==> e is Validation,
            r matches Ok(args) ==> views(args@) == dump_args_spec(
                self.spec_db_url(),
                self.spec_excluded_schemas(),
                self.spec_excluded_tables(),
                self.spec_schema_only(),
                self.spec_data_only(),
                match output {
                    Some(p) => Some(p@),
                    None => None,
                },
            ),
    {
        if self.schema_only && self.data_only {
            return Err(
                MigrateError::Validation(
                    String::from_str("schema-only and data-only dumps cannot be combined"),
                ),
            );
        }
        let ghost tables = views(self.excluded_tables@);
        let mut args: Vec<String> = Vec::new();
        args.push(copy_string(&self.db_url));
        args.push(String::from_str(CLEAN_FLAG));
        args.push(String::from_str(IF_EXISTS_FLAG));
        args.push(String::from_str(QUOTE_ALL_FLAG));
        let ghost mut want: Seq<Seq<char>> = seq![
            self.db_url@,
            CLEAN_FLAG@,
            IF_EXISTS_FLAG@,
            QUOTE_ALL_FLAG@,
        ];
        assert(views(args@) == want);
        if self.schema_only {
            args.push(String::from_str(SCHEMA_ONLY_FLAG));
        }
        proof {
            want = want + (if self.schema_only {
                seq![SCHEMA_ONLY_FLAG@]
            } else {
                Seq::empty()
            });
        }
        assert(views(args@) == want);
        if self.data_only {
            args.push(String::from_str(DATA_ONLY_FLAG));
        }
        proof {
            want = want + (if self.data_only {
                seq![DATA_ONLY_FLAG@]
            } else {
                Seq::empty()
            });
        }
        assert(views(args@) == want);
        args.push(String::from_str(EXCLUDE_STORAGE_DATA_FLAG));
        proof {
            want = want + seq![EXCLUDE_STORAGE_DATA_FLAG@];
        }
        assert(views(args@) == want);
        if self.excluded_schemas.len() > 0 {
            let mut flag = String::from_str(EXCLUDE_SCHEMA_FLAG);
            let pattern = join_alternation(&self.excluded_schemas);
            flag.append(pattern.as_str());
            args.push(flag);
        }
        proof {
            want = want + (if views(self.excluded_schemas@).len() > 0 {
                seq![EXCLUDE_SCHEMA_FLAG@ + join_bar(views(self.excluded_schemas@))]
            } else {
                Seq::empty()
            });
        }
        assert(views(args@) == want);
        let ghost base = want;
        let mut i: usize = 0;
        while i < self.excluded_tables.len()
            invariant
                i <= self.excluded_tables@.len(),
                tables == views(self.excluded_tables@),
                views(args@) == base + tables.take(i as int).map_values(
                    |t: Seq<char>| EXCLUDE_TABLE_FLAG@ + t,
                ),
            decreases self.excluded_tables@.len() - i,
        {
            let mut flag = String::from_str(EXCLUDE_TABLE_FLAG);
            flag.append(self.excluded_tables[i].as_str());
            assert(tables[i as int] == self.excluded_tables@[i as int]@);
            let ghost before = args@;
            args.push(flag);
            assert(views(args@) == views(before).push(flag@));
            assert(tables.take(i + 1).map_values(|t: Seq<char>| EXCLUDE_TABLE_FLAG@ + t)
                == tables.take(i as int).map_values(|t: Seq<char>| EXCLUDE_TABLE_FLAG@ + t).push(
                EXCLUDE_TABLE_FLAG@ + tables[i as int],
            ));
            i = i + 1;
        }
        assert(tables.take(i as int) == tables);
        args.push(String::from_str(ALL_SCHEMAS_FLAG));
        let ghost before_output = views(args@);
        match output {
            Some(p) => {
                args.push(String::from_str(OUTPUT_FLAG));
                args.push(p);
                assert(views(args@) == before_output + seq![OUTPUT_FLAG@, p@]);
            },
            None => {
                assert(views(args@) == before_output + Seq::<Seq<char>>::empty());
            },
        }
        Ok(args)
    }
}

/// The result of a dump run: the tool could not be executed, it ran and
/// failed (its diagnostic text is kept as it is), or it ran and gave the dump.
pub fn dump_outcome(available: bool, success: bool, stdout: String, stderr: String) -> (r: Result<
    String,
    MigrateError,
>)
    ensures
        !available ==> r matches Err(MigrateError::ToolingUnavailable),
        available && !success ==> (r matches Err(MigrateError::ExternalToolFailure(m)) && m@
            == stderr@),
        available && success ==> (r matches Ok(out) && out@ == stdout@),
{
    if !available {
        Err(MigrateError::ToolingUnavailable)
    } else if !success {
        Err(MigrateError::ExternalToolFailure(stderr))
    } else {
        Ok(stdout)
    }
}

} // verus!
