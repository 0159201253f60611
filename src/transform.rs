//! Adapting a dumped schema so that it can be replayed on a target with
//! other roles and with platform-managed schemas of its own. Pure text work,
//! line by line, driven by a rule set.

use vstd::prelude::*;
use crate::secrets::{
    lemma_lines_append, lemma_lines_newline, lemma_lines_nonempty, lemma_lines_one_line, lines_of,
};
use crate::text::{chars_of, push_char, string_of, views};

verus! {

/// Which schemas the target platform provisions itself, and which roles
/// exist only on the source.
pub struct TransformRules {
    pub managed_schemas: Vec<String>,
    pub source_roles: Vec<String>,
}

pub const DROP_SCHEMA_OPEN: &'static str = "DROP SCHEMA IF EXISTS \"";
pub const CREATE_SCHEMA_OPEN: &'static str = "CREATE SCHEMA \"";
pub const CREATE_SCHEMA_IF_MISSING_OPEN: &'static str = "CREATE SCHEMA IF NOT EXISTS \"";
pub const ALTER_OPEN: &'static str = "ALTER ";
pub const OWNER_TO: &'static str = " OWNER TO \"";
pub const STATEMENT_CLOSE: &'static str = "\";";

/// The text between `open` and `close` when `l` is exactly `open + name + close`.
pub open spec fn enclosed(l: Seq<char>, open: Seq<char>, close: Seq<char>) -> Option<Seq<char>> {
    if l.len() >= open.len() + close.len() && l.take(open.len() as int) == open && l.skip(
        l.len() - close.len(),
    ) == close {
        Some(l.subrange(open.len() as int, l.len() - close.len()))
    } else {
        None
    }
}

pub open spec fn starts_with(l: Seq<char>, p: Seq<char>) -> bool {
    l.len() >= p.len() && l.take(p.len() as int) == p
}

pub open spec fn ends_with(l: Seq<char>, t: Seq<char>) -> bool {
    l.len() >= t.len() && l.skip(l.len() - t.len()) == t
}

/// How a line that hands an object to `role` ends.
pub open spec fn owner_tail(role: Seq<char>) -> Seq<char> {
    OWNER_TO@ + role + STATEMENT_CLOSE@
}

/// Whether `l` hands an object to one of `roles`: `ALTER ... OWNER TO "<role>";`.
pub open spec fn owned_by_source_role(l: Seq<char>, roles: Seq<Seq<char>>) -> bool {
    &&& starts_with(l, ALTER_OPEN@)
    &&& exists|i: int| 0 <= i < roles.len() && ends_with(l, owner_tail(#[trigger] roles[i]))
}

/// What becomes of one line: a managed schema is never dropped and is created
/// only if missing; an ownership change to a source-only role is left out;
/// every other line, a grant to an unknown role included, is kept as it is.
pub open spec fn transform_line(l: Seq<char>, managed: Seq<Seq<char>>, roles: Seq<Seq<char>>) -> Option<
    Seq<char>,
> {
    match enclosed(l, DROP_SCHEMA_OPEN@, STATEMENT_CLOSE@) {
        Some(s) if managed.contains(s) => None,
        _ => match enclosed(l, CREATE_SCHEMA_OPEN@, STATEMENT_CLOSE@) {
            Some(s) if managed.contains(s) => Some(
                CREATE_SCHEMA_IF_MISSING_OPEN@ + s + STATEMENT_CLOSE@,
            ),
            _ => if owned_by_source_role(l, roles) {
                None
            } else {
                Some(l)
            },
        },
    }
}

/// The kept lines of `ls`, each followed by a newline.
pub open spec fn transformed_body(
    ls: Seq<Seq<char>>,
    managed: Seq<Seq<char>>,
    roles: Seq<Seq<char>>,
) -> Seq<char>
    decreases ls.len(),
{
    if ls.len() == 0 {
        Seq::empty()
    } else {
        transformed_body(ls.drop_last(), managed, roles) + match transform_line(
            ls.last(),
            managed,
            roles,
        ) {
            Some(t) => t.push('\n'),
            None => Seq::empty(),
        }
    }
}

/// The whole text transformed: every line but the last with its newline,
/// then the last line, each as `transform_line` says.
pub open spec fn transform_spec(text: Seq<char>, managed: Seq<Seq<char>>, roles: Seq<Seq<char>>) -> Seq<
    char,
> {
    let ls = lines_of(text);
    transformed_body(ls.drop_last(), managed, roles) + match transform_line(
        ls.last(),
        managed,
        roles,
    ) {
        Some(t) => t,
        None => Seq::empty(),
    }
}

/// Whether `v[lo..hi]` is exactly `s`.
fn range_is(v: &Vec<char>, lo: usize, hi: usize, s: &Vec<char>) -> (r: bool)
    requires
        lo <= hi <= v@.len(),
    ensures
        r == (v@.subrange(lo as int, hi as int) == s@),
{
    if hi - lo != s.len() {
        return false;
    }
    let mut i: usize = 0;
    while i < s.len()
        invariant
            lo <= hi <= v@.len(),
            hi - lo == s@.len(),
            i <= s@.len(),
            forall|j: int| 0 <= j < i ==> v@[lo + j] == s@[j],
        decreases s@.len() - i,
    {
        if v[lo + i] != s[i] {
            assert(v@.subrange(lo as int, hi as int)[i as int] != s@[i as int]);
            return false;
        }
        i = i + 1;
    }
    assert(v@.subrange(lo as int, hi as int) == s@);
    true
}

/// Whether `v[lo..hi]` is one of `names`.
fn range_in(v: &Vec<char>, lo: usize, hi: usize, names: &Vec<Vec<char>>) -> (r: bool)
    requires
        lo <= hi <= v@.len(),
    ensures
        r == names@.map_values(|n: Vec<char>| n@).contains(v@.subrange(lo as int, hi as int)),
{
    let ghost ns = names@.map_values(|n: Vec<char>| n@);
    let mut i: usize = 0;
    while i < names.len()
        invariant
            i <= names@.len(),
            lo <= hi <= v@.len(),
            ns == names@.map_values(|n: Vec<char>| n@),
            forall|j: int| 0 <= j < i ==> ns[j] != v@.subrange(lo as int, hi as int),
        decreases names@.len() - i,
    {
        if range_is(v, lo, hi, &names[i]) {
            assert(ns[i as int] == v@.subrange(lo as int, hi as int));
            return true;
        }
        i = i + 1;
    }
    false
}

/// The characters of each string.
fn char_lists(v: &Vec<String>) -> (r: Vec<Vec<char>>)
    ensures
        r@.map_values(|n: Vec<char>| n@) == views(v@),
{
    let mut r: Vec<Vec<char>> = Vec::new();
    let mut i: usize = 0;
    while i < v.len()
        invariant
            i <= v@.len(),
            r@.map_values(|n: Vec<char>| n@) == views(v@).take(i as int),
        decreases v@.len() - i,
    {
        let c = chars_of(v[i].as_str());
        let ghost before = r@;
        r.push(c);
        assert(r@.map_values(|n: Vec<char>| n@) == before.map_values(|n: Vec<char>| n@).push(
            c@,
        ));
        assert(views(v@).take(i + 1) == views(v@).take(i as int).push(v@[i as int]@));
        i = i + 1;
    }
    assert(views(v@).take(i as int) == views(v@));
    r
}

/// The rules, and the fixed pieces of text, as characters.
struct Matcher {
    managed: Vec<Vec<char>>,
    roles: Vec<Vec<char>>,
    drop_open: Vec<char>,
    create_open: Vec<char>,
    alter_open: Vec<char>,
    role_tails: Vec<Vec<char>>,
    close: Vec<char>,
}

impl Matcher {
    spec fn wf(&self, managed: Seq<Seq<char>>, roles: Seq<Seq<char>>) -> bool {
        &&& self.managed@.map_values(|n: Vec<char>| n@) == managed
        &&& self.roles@.map_values(|n: Vec<char>| n@) == roles
        &&& self.drop_open@ == DROP_SCHEMA_OPEN@
        &&& self.create_open@ == CREATE_SCHEMA_OPEN@
        &&& self.alter_open@ == ALTER_OPEN@
        &&& self.close@ == STATEMENT_CLOSE@
        &&& self.role_tails@.len() == roles.len()
        &&& forall|i: int|
            0 <= i < roles.len() ==> #[trigger] self.role_tails@[i]@ == owner_tail(roles[i])
    }
}

fn matcher(rules: &TransformRules) -> (r: Matcher)
    ensures
        r.wf(views(rules.managed_schemas@), views(rules.source_roles@)),
{
    let roles = char_lists(&rules.source_roles);
    let ghost rs = views(rules.source_roles@);
    let mut role_tails: Vec<Vec<char>> = Vec::new();
    let mut i: usize = 0;
    while i < rules.source_roles.len()
        invariant
            i <= rules.source_roles@.len(),
            rs == views(rules.source_roles@),
            role_tails@.len() == i,
            forall|j: int| 0 <= j < i ==> #[trigger] role_tails@[j]@ == owner_tail(rs[j]),
        decreases rules.source_roles@.len() - i,
    {
        let mut t = String::from_str(OWNER_TO);
        t.append(rules.source_roles[i].as_str());
        t.append(STATEMENT_CLOSE);
        role_tails.push(chars_of(t.as_str()));
        i = i + 1;
    }
    Matcher {
        managed: char_lists(&rules.managed_schemas),
        roles,
        drop_open: chars_of(DROP_SCHEMA_OPEN),
        create_open: chars_of(CREATE_SCHEMA_OPEN),
        alter_open: chars_of(ALTER_OPEN),
        role_tails,
        close: chars_of(STATEMENT_CLOSE),
    }
}

fn has_prefix(v: &Vec<char>, lo: usize, hi: usize, p: &Vec<char>) -> (r: bool)
    requires
        lo <= hi <= v@.len(),
    ensures
        r == starts_with(v@.subrange(lo as int, hi as int), p@),
{
    if hi - lo < p.len() {
        return false;
    }
    assert(v@.subrange(lo as int, hi as int).take(p@.len() as int) == v@.subrange(
        lo as int,
        lo + p@.len(),
    ));
    range_is(v, lo, lo + p.len(), p)
}

fn has_suffix(v: &Vec<char>, lo: usize, hi: usize, t: &Vec<char>) -> (r: bool)
    requires
        lo <= hi <= v@.len(),
    ensures
        r == ends_with(v@.subrange(lo as int, hi as int), t@),
{
    if hi - lo < t.len() {
        return false;
    }
    let ghost l = v@.subrange(lo as int, hi as int);
    assert(l.skip(l.len() - t@.len()) == v@.subrange(hi - t@.len(), hi as int));
    range_is(v, hi - t.len(), hi, t)
}

/// The bounds of the name when `v[lo..hi]` is exactly `open + name + close`.
fn enclosed_at(v: &Vec<char>, lo: usize, hi: usize, open: &Vec<char>, close: &Vec<char>) -> (r:
    Option<(usize, usize)>)
    requires
        lo <= hi <= v@.len(),
    ensures
        match enclosed(v@.subrange(lo as int, hi as int), open@, close@) {
            Some(n) => r matches Some((a, b)) && lo <= a <= b <= hi && v@.subrange(a as int, b as int) == n,
            None => r is None,
        },
{
    let ghost l = v@.subrange(lo as int, hi as int);
    if hi - lo < open.len() || hi - lo - open.len() < close.len() {
        return None;
    }
    if !has_prefix(v, lo, hi, open) || !has_suffix(v, lo, hi, close) {
        return None;
    }
    let a = lo + open.len();
    let b = hi - close.len();
    assert(l.subrange(open@.len() as int, l.len() - close@.len()) == v@.subrange(a as int, b as int));
    Some((a, b))
}

fn owned_by_role_at(v: &Vec<char>, lo: usize, hi: usize, m: &Matcher, Ghost(roles): Ghost<Seq<Seq<char>>>) -> (r: bool)
    requires
        lo <= hi <= v@.len(),
        m.wf(m.managed@.map_values(|n: Vec<char>| n@), roles),
    ensures
        r == owned_by_source_role(v@.subrange(lo as int, hi as int), roles),
{
    let ghost l = v@.subrange(lo as int, hi as int);
    if !has_prefix(v, lo, hi, &m.alter_open) {
        return false;
    }
    let mut i: usize = 0;
    while i < m.role_tails.len()
        invariant
            lo <= hi <= v@.len(),
            l == v@.subrange(lo as int, hi as int),
            m.wf(m.managed@.map_values(|n: Vec<char>| n@), roles),
            starts_with(l, ALTER_OPEN@),
            i <= m.role_tails@.len(),
            forall|j: int| 0 <= j < i ==> !ends_with(l, owner_tail(#[trigger] roles[j])),
        decreases m.role_tails@.len() - i,
    {
        if has_suffix(v, lo, hi, &m.role_tails[i]) {
            assert(m.role_tails@[i as int]@ == owner_tail(roles[i as int]));
            return true;
        }
        assert(m.role_tails@[i as int]@ == owner_tail(roles[i as int]));
        i = i + 1;
    }
    false
}

fn transform_line_at(
    v: &Vec<char>,
    lo: usize,
    hi: usize,
    m: &Matcher,
    Ghost(managed): Ghost<Seq<Seq<char>>>,
    Ghost(roles): Ghost<Seq<Seq<char>>>,
) -> (r: Option<String>)
    requires
        lo <= hi <= v@.len(),
        m.wf(managed, roles),
    ensures
        match transform_line(v@.subrange(lo as int, hi as int), managed, roles) {
            Some(t) => r matches Some(x) && x@ == t,
            None => r is None,
        },
{
    match enclosed_at(v, lo, hi, &m.drop_open, &m.close) {
        Some((a, b)) => {
            if range_in(v, a, b, &m.managed) {
                return None;
            }
        },
        None => {},
    }
    match enclosed_at(v, lo, hi, &m.create_open, &m.close) {
        Some((a, b)) => {
            if range_in(v, a, b, &m.managed) {
                let mut t = String::from_str(CREATE_SCHEMA_IF_MISSING_OPEN);
                let name = string_of(v, a, b);
                t.append(name.as_str());
                t.append(STATEMENT_CLOSE);
                return Some(t);
            }
        },
        None => {},
    }
    if owned_by_role_at(v, lo, hi, m, Ghost(roles)) {
        return None;
    }
    Some(string_of(v, lo, hi))
}

/// Rewrites a dumped schema for replay on a target: see `transform_line`.
/// No other line is added, removed or changed.
pub fn transform_dump(text: &str, rules: &TransformRules) -> (r: String)
    ensures
        r@ == transform_spec(text@, views(rules.managed_schemas@), views(rules.source_roles@)),
{
    let ghost managed = views(rules.managed_schemas@);
    let ghost roles = views(rules.source_roles@);
    let m = matcher(rules);
    let v = chars_of(text);
    let ghost s = v@;
    let mut out = String::new();
    let mut start: usize = 0;
    let mut i: usize = 0;
    assert(s.take(0) == Seq::<char>::empty());
    while i < v.len()
        invariant
            s == v@,
            s == text@,
            m.wf(managed, roles),
            start <= i <= v@.len(),
            lines_of(s.take(i as int)).len() >= 1,
            lines_of(s.take(i as int)).last() == s.subrange(start as int, i as int),
            out@ == transformed_body(lines_of(s.take(i as int)).drop_last(), managed, roles),
        decreases v@.len() - i,
    {
        let ghost before = lines_of(s.take(i as int));
        assert(s.take(i + 1).drop_last() == s.take(i as int));
        assert(s.take(i + 1).last() == s[i as int]);
        if v[i] == '\n' {
            match transform_line_at(&v, start, i, &m, Ghost(managed), Ghost(roles)) {
                Some(t) => {
                    out.append(t.as_str());
                    push_char(&mut out, '\n');
                },
                None => {},
            }
            assert(lines_of(s.take(i + 1)).drop_last() == before);
            start = i + 1;
        } else {
            assert(lines_of(s.take(i + 1)).drop_last() == before.drop_last());
            assert(s.subrange(start as int, i + 1) == s.subrange(start as int, i as int).push(
                s[i as int],
            ));
        }
        i = i + 1;
    }
    assert(s.take(i as int) == s);
    match transform_line_at(&v, start, i, &m, Ghost(managed), Ghost(roles)) {
        Some(t) => out.append(t.as_str()),
        None => {},
    }
    out
}

/// The lines that a transform keeps, as it writes them.
pub open spec fn kept_lines(ls: Seq<Seq<char>>, managed: Seq<Seq<char>>, roles: Seq<Seq<char>>) -> Seq<
    Seq<char>,
>
    decreases ls.len(),
{
    if ls.len() == 0 {
        Seq::empty()
    } else {
        let prev = kept_lines(ls.drop_last(), managed, roles);
        match transform_line(ls.last(), managed, roles) {
            Some(t) => prev.push(t),
            None => prev,
        }
    }
}

pub open spec fn one_line(l: Seq<char>) -> bool {
    forall|j: int| 0 <= j < l.len() ==> #[trigger] l[j] != '\n'
}

/// A line that the transform writes is left as it is by a second transform,
/// and it is still one line.
proof fn lemma_line_fixed(l: Seq<char>, managed: Seq<Seq<char>>, roles: Seq<Seq<char>>)
    requires
        transform_line(l, managed, roles) is Some,
        one_line(l),
    ensures
        transform_line(transform_line(l, managed, roles).unwrap(), managed, roles)
            == transform_line(l, managed, roles),
        one_line(transform_line(l, managed, roles).unwrap()),
{
    let t = transform_line(l, managed, roles).unwrap();
    if t != l {
        let s = l.subrange(CREATE_SCHEMA_OPEN@.len() as int, l.len() - STATEMENT_CLOSE@.len());
        reveal_strlit("DROP SCHEMA IF EXISTS \"");
        reveal_strlit("CREATE SCHEMA \"");
        reveal_strlit("CREATE SCHEMA IF NOT EXISTS \"");
        reveal_strlit("ALTER ");
        reveal_strlit("\";");
        let a = CREATE_SCHEMA_IF_MISSING_OPEN@;
        assert(t == a + s + STATEMENT_CLOSE@);
        assert(t[0] == a[0]);
        assert(t[14] == a[14]);
        assert(t.take(DROP_SCHEMA_OPEN@.len() as int)[0] != DROP_SCHEMA_OPEN@[0]);
        assert(t.take(CREATE_SCHEMA_OPEN@.len() as int)[14] != CREATE_SCHEMA_OPEN@[14]);
        assert(t.take(ALTER_OPEN@.len() as int)[0] != ALTER_OPEN@[0]);
        assert forall|j: int| 0 <= j < t.len() implies #[trigger] t[j] != '\n' by {
            if j < a.len() {
                assert(t[j] == a[j]);
            } else if j < a.len() + s.len() {
                assert(t[j] == s[j - a.len()]);
                assert(s[j - a.len()] == l[j - a.len() + CREATE_SCHEMA_OPEN@.len()]);
            } else {
                assert(t[j] == STATEMENT_CLOSE@[j - a.len() - s.len()]);
            }
        }
    }
}

proof fn lemma_body_lines(ls: Seq<Seq<char>>, managed: Seq<Seq<char>>, roles: Seq<Seq<char>>)
    requires
        forall|i: int| 0 <= i < ls.len() ==> one_line(#[trigger] ls[i]),
    ensures
        lines_of(transformed_body(ls, managed, roles)) == kept_lines(ls, managed, roles).push(
            Seq::<char>::empty(),
        ),
        forall|i: int|
            0 <= i < kept_lines(ls, managed, roles).len() ==> one_line(
                #[trigger] kept_lines(ls, managed, roles)[i],
            ) && transform_line(kept_lines(ls, managed, roles)[i], managed, roles) == Some(
                kept_lines(ls, managed, roles)[i],
            ),
    decreases ls.len(),
{
    if ls.len() == 0 {
        assert(lines_of(Seq::<char>::empty()) == seq![Seq::<char>::empty()]);
    } else {
        let prev = ls.drop_last();
        assert forall|i: int| 0 <= i < prev.len() implies one_line(#[trigger] prev[i]) by {
            assert(prev[i] == ls[i]);
        }
        lemma_body_lines(prev, managed, roles);
        let b = transformed_body(prev, managed, roles);
        let kp = kept_lines(prev, managed, roles);
        assert(one_line(ls[ls.len() - 1]));
        match transform_line(ls.last(), managed, roles) {
            Some(t) => {
                lemma_line_fixed(ls.last(), managed, roles);
                lemma_lines_append(b, t);
                lemma_lines_newline(b + t);
                assert(b + t.push('\n') == (b + t).push('\n'));
                let lb = lines_of(b);
                assert(lb.last() + t == t);
                assert(lb.update(lb.len() - 1, t) == kp.push(t));
                let k = kept_lines(ls, managed, roles);
                assert(k == kp.push(t));
                assert forall|i: int| 0 <= i < k.len() implies one_line(#[trigger] k[i])
                    && transform_line(k[i], managed, roles) == Some(k[i]) by {
                    if i < kp.len() {
                        assert(k[i] == kp[i]);
                    }
                }
            },
            None => {
                assert(transformed_body(ls, managed, roles) == b + Seq::<char>::empty());
                assert(b + Seq::<char>::empty() == b);
            },
        }
    }
}

proof fn lemma_body_fixed(ks: Seq<Seq<char>>, managed: Seq<Seq<char>>, roles: Seq<Seq<char>>)
    requires
        forall|i: int| 0 <= i < ks.len() ==> transform_line(#[trigger] ks[i], managed, roles) == Some(ks[i]),
    ensures
        kept_lines(ks, managed, roles) == ks,
    decreases ks.len(),
{
    if ks.len() > 0 {
        let prev = ks.drop_last();
        assert forall|i: int| 0 <= i < prev.len() implies transform_line(#[trigger] prev[i], managed, roles) == Some(prev[i]) by {
            assert(prev[i] == ks[i]);
        }
        lemma_body_fixed(prev, managed, roles);
        assert(transform_line(ks[ks.len() - 1], managed, roles) == Some(ks[ks.len() - 1]));
        assert(prev.push(ks.last()) == ks);
    }
}

/// Every line of `ls` followed by a newline.
pub open spec fn transformed_body_plain(ls: Seq<Seq<char>>) -> Seq<char>
    decreases ls.len(),
{
    if ls.len() == 0 {
        Seq::empty()
    } else {
        transformed_body_plain(ls.drop_last()) + ls.last().push('\n')
    }
}

proof fn lemma_body_is_plain_of_kept(ls: Seq<Seq<char>>, managed: Seq<Seq<char>>, roles: Seq<Seq<char>>)
    ensures
        transformed_body(ls, managed, roles) == transformed_body_plain(kept_lines(ls, managed, roles)),
    decreases ls.len(),
{
    if ls.len() > 0 {
        lemma_body_is_plain_of_kept(ls.drop_last(), managed, roles);
        let kp = kept_lines(ls.drop_last(), managed, roles);
        match transform_line(ls.last(), managed, roles) {
            Some(t) => {
                assert(kp.push(t).drop_last() == kp);
            },
            None => {
                assert(transformed_body(ls, managed, roles) == transformed_body(ls.drop_last(), managed, roles) + Seq::<char>::empty());
            },
        }
    }
}

/// Transforming a dump that was already transformed with the same rules
/// changes nothing: every line written is one the rules leave as it is.
pub proof fn lemma_transform_idempotent(text: Seq<char>, managed: Seq<Seq<char>>, roles: Seq<Seq<char>>)
    ensures
        transform_spec(transform_spec(text, managed, roles), managed, roles) == transform_spec(
            text,
            managed,
            roles,
        ),
{
    let ls = lines_of(text);
    lemma_lines_nonempty(text);
    lemma_lines_one_line(text);
    let ms = ls.drop_last();
    assert forall|i: int| 0 <= i < ms.len() implies one_line(#[trigger] ms[i]) by {
        assert(ms[i] == ls[i]);
        assert forall|j: int| 0 <= j < ms[i].len() implies #[trigger] ms[i][j] != '\n' by {
            assert(ls[i][j] != '\n');
        }
    }
    assert(one_line(ls.last())) by {
        assert forall|j: int| 0 <= j < ls.last().len() implies #[trigger] ls.last()[j] != '\n' by {
            assert(ls[ls.len() - 1][j] != '\n');
        }
    }
    lemma_body_lines(ms, managed, roles);
    let b = transformed_body(ms, managed, roles);
    let k = kept_lines(ms, managed, roles);
    let tail = match transform_line(ls.last(), managed, roles) {
        Some(t) => t,
        None => Seq::<char>::empty(),
    };
    if transform_line(ls.last(), managed, roles) is Some {
        lemma_line_fixed(ls.last(), managed, roles);
    }
    assert(one_line(tail));
    assert(transform_line(tail, managed, roles) == Some(tail)) by {
        if transform_line(ls.last(), managed, roles) is None {
            assert(tail.len() == 0);
            reveal_strlit("DROP SCHEMA IF EXISTS \"");
            reveal_strlit("CREATE SCHEMA \"");
            reveal_strlit("ALTER ");
            assert(DROP_SCHEMA_OPEN@.len() > 0);
            assert(CREATE_SCHEMA_OPEN@.len() > 0);
            assert(!starts_with(tail, ALTER_OPEN@));
        }
    }
    let out = b + tail;
    assert(out == transform_spec(text, managed, roles));
    lemma_lines_append(b, tail);
    let lb = lines_of(b);
    assert(lb.last() + tail == tail);
    assert(lines_of(out) == k.push(tail));
    assert(k.push(tail).drop_last() == k);
    assert(k.push(tail).last() == tail);
    lemma_body_fixed(k, managed, roles);
    lemma_body_is_plain_of_kept(k, managed, roles);
    lemma_body_is_plain_of_kept(ms, managed, roles);
}

} // verus!
