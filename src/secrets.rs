//! Write-only secrets: names can be listed, values only supplied.
//! Holds the `NAME=value` file format and its template.

use vstd::prelude::*;
use crate::error::MigrateError;
use crate::text::{
    chars_of, find_char, first_index, is_white, lemma_first_index, lemma_first_index_exact,
    lemma_trim_avoids, lemma_trim_end_prefix, lemma_trim_ends, lemma_trim_fixed, push_char,
    string_of, trim, trim_end, trim_range, trim_start, copy_string, views,
};

verus! {

/// The name of a secret as the management interface lists it; values are never returned.
pub struct SecretMetadata {
    pub name: String,
}

/// A name with the value to create or restore it with.
pub struct Secret {
    pub name: String,
    pub value: String,
}

/// Names saved from a project, with a note that values are not part of it.
pub struct SecretsBackup {
    pub secrets: Vec<SecretMetadata>,
    pub note: String,
}

/// A parsed entry: name and value.
pub type Entry = (Seq<char>, Seq<char>);

/// The entries that a list of secrets holds, in order.
pub open spec fn entries(v: Seq<Secret>) -> Seq<Entry> {
    v.map_values(|s: Secret| (s.name@, s.value@))
}

/// The names that a list of entries holds, in order.
pub open spec fn names_of(es: Seq<Entry>) -> Seq<Seq<char>> {
    es.map_values(|e: Entry| e.0)
}

/// The lines of `s`: the pieces between `'\n'` characters.
pub open spec fn lines_of(s: Seq<char>) -> Seq<Seq<char>>
    decreases s.len(),
{
    if s.len() == 0 {
        seq![Seq::empty()]
    } else {
        let prev = lines_of(s.drop_last());
        if s.last() == '\n' {
            prev.push(Seq::empty())
        } else {
            prev.update(prev.len() - 1, prev.last().push(s.last()))
        }
    }
}

/// A value without one pair of surrounding double quotes, if it has them.
pub open spec fn unquote(v: Seq<char>) -> Seq<char> {
    if v.len() >= 2 && v[0] == '"' && v.last() == '"' {
        v.subrange(1, v.len() - 1)
    } else {
        v
    }
}

/// The entry on one line: none for a blank line, a comment, or a line without `=`.
/// The name and the value are split at the first `=` and trimmed.
pub open spec fn parse_line(l: Seq<char>) -> Option<Entry> {
    let t = trim(l);
    if t.len() == 0 || t[0] == '#' {
        None
    } else {
        let k = first_index(t, '=');
        if k == t.len() {
            None
        } else {
            Some((trim(t.take(k)), unquote(trim(t.skip(k + 1)))))
        }
    }
}

/// The entries of a list of lines, in order.
pub open spec fn entries_of_lines(ls: Seq<Seq<char>>) -> Seq<Entry>
    decreases ls.len(),
{
    if ls.len() == 0 {
        Seq::empty()
    } else {
        let prev = entries_of_lines(ls.drop_last());
        match parse_line(ls.last()) {
            Some(e) => prev.push(e),
            None => prev,
        }
    }
}

/// The entries of a secret-value file.
pub open spec fn parse_env(s: Seq<char>) -> Seq<Entry> {
    entries_of_lines(lines_of(s))
}

pub proof fn lemma_lines_nonempty(s: Seq<char>)
    ensures
        lines_of(s).len() >= 1,
    decreases s.len(),
{
    if s.len() > 0 {
        lemma_lines_nonempty(s.drop_last());
    }
}

/// The entry of the line `v[lo..hi]`.
fn parse_line_at(v: &Vec<char>, lo: usize, hi: usize) -> (r: Option<Secret>)
    requires
        lo <= hi <= v@.len(),
    ensures
        match r {
            Some(s) => parse_line(v@.subrange(lo as int, hi as int)) == Some(
                (s.name@, s.value@),
            ),
            None => parse_line(v@.subrange(lo as int, hi as int)) is None,
        },
{
    let (a, b) = trim_range(v, lo, hi);
    let ghost t = v@.subrange(a as int, b as int);
    if a == b || v[a] == '#' {
        return None;
    }
    assert(t[0] == v@[a as int]);
    let k = find_char(v, a, b, '=');
    if k == b {
        return None;
    }
    let (na, nb) = trim_range(v, a, k);
    let (va, vb) = trim_range(v, k + 1, b);
    let (qa, qb) = if vb - va >= 2 && v[va] == '"' && v[vb - 1] == '"' {
        (va + 1, vb - 1)
    } else {
        (va, vb)
    };
    proof {
        assert(t.take(k - a) == v@.subrange(a as int, k as int));
        assert(t.skip(k - a + 1) == v@.subrange(k + 1, b as int));
        let w = v@.subrange(va as int, vb as int);
        if w.len() >= 2 && w[0] == '"' && w.last() == '"' {
            assert(w[0] == v@[va as int]);
            assert(w.last() == v@[vb - 1]);
            assert(w.subrange(1, w.len() - 1) == v@.subrange(qa as int, qb as int));
        } else if vb - va >= 2 && v@[va as int] == '"' && v@[vb - 1] == '"' {
            assert(w[0] == v@[va as int]);
            assert(w.last() == v@[vb - 1]);
        }
    }
    Some(Secret { name: string_of(v, na, nb), value: string_of(v, qa, qb) })
}

/// Reads a secret-value file: one `NAME=value` per line; blank lines and lines
/// starting with `#` are skipped, as are lines without `=`. The split is at the
/// first `=`, name and value are trimmed, and one pair of double quotes around
/// the value is removed.
pub fn parse_env_file(content: &str) -> (r: Vec<Secret>)
    ensures
        entries(r@) == parse_env(content@),
{
    let v = chars_of(content);
    let ghost s = v@;
    let mut out: Vec<Secret> = Vec::new();
    let mut start: usize = 0;
    let mut i: usize = 0;
    proof {
        assert(s.take(0) == Seq::<char>::empty());
    }
    while i < v.len()
        invariant
            s == v@,
            s == content@,
            start <= i <= v@.len(),
            lines_of(s.take(i as int)).len() >= 1,
            lines_of(s.take(i as int)).last() == s.subrange(start as int, i as int),
            entries(out@) == entries_of_lines(lines_of(s.take(i as int)).drop_last()),
        decreases v@.len() - i,
    {
        let ghost before = lines_of(s.take(i as int));
        let ghost out0 = out@;
        assert(s.take(i + 1).drop_last() == s.take(i as int));
        assert(s.take(i + 1).last() == s[i as int]);
        if v[i] == '\n' {
            let e = parse_line_at(&v, start, i);
            match e {
                Some(sec) => {
                    out.push(sec);
                    assert(entries(out@) == entries(out0).push((sec.name@, sec.value@)));
                },
                None => {},
            }
            assert(lines_of(s.take(i + 1)).drop_last() == before);
            start = i + 1;
        } else {
            assert(lines_of(s.take(i + 1)).drop_last() == before.drop_last());
            assert(s.subrange(start as int, i + 1) == s.subrange(start as int, i as int).push(
                s[i as int],
            ));
        }
        i = i + 1;
    }
    let ghost last_lines = lines_of(s.take(i as int));
    let ghost out1 = out@;
    assert(s.take(i as int) == s);
    let e = parse_line_at(&v, start, i);
    match e {
        Some(sec) => {
            out.push(sec);
            assert(entries(out@) == entries(out1).push((sec.name@, sec.value@)));
        },
        None => {},
    }
    out
}

/// First line of a generated template.
pub const TEMPLATE_TITLE: &'static str = "# Secrets template generated by supamigrate";

/// Second line of a generated template.
pub const TEMPLATE_USAGE: &'static str =
    "# Fill in the values below and use with: supamigrate secrets import --file <this-file>";

/// The comment lines that open a template, and a blank line.
pub open spec fn template_header() -> Seq<char> {
    TEMPLATE_TITLE@.push('\n') + TEMPLATE_USAGE@.push('\n').push('\n')
}

/// One `NAME=` line for each name, in order.
pub open spec fn template_body(names: Seq<Seq<char>>) -> Seq<char>
    decreases names.len(),
{
    if names.len() == 0 {
        Seq::empty()
    } else {
        template_body(names.drop_last()) + names.last().push('=').push('\n')
    }
}

/// A template listing `names` with empty values.
pub open spec fn template_of(names: Seq<Seq<char>>) -> Seq<char> {
    template_header() + template_body(names)
}

/// The names of a list of secret names.
pub open spec fn metadata_names(v: Seq<SecretMetadata>) -> Seq<Seq<char>> {
    v.map_values(|m: SecretMetadata| m.name@)
}

/// Writes a secret-value file that lists each name with an empty value, after
/// two comment lines and a blank line.
pub fn generate_env_template(secrets: &[SecretMetadata]) -> (r: String)
    ensures
        r@ == template_of(metadata_names(secrets@)),
{
    let mut output = String::from_str(TEMPLATE_TITLE);
    push_char(&mut output, '\n');
    output.append(TEMPLATE_USAGE);
    push_char(&mut output, '\n');
    push_char(&mut output, '\n');
    let ghost names = metadata_names(secrets@);
    assert(output@ == template_header());
    let mut i: usize = 0;
    while i < secrets.len()
        invariant
            i <= secrets@.len(),
            names == metadata_names(secrets@),
            output@ == template_of(names.take(i as int)),
        decreases secrets@.len() - i,
    {
        let ghost before = output@;
        output.append(secrets[i].name.as_str());
        push_char(&mut output, '=');
        push_char(&mut output, '\n');
        proof {
            let n = names.take(i + 1);
            assert(n.drop_last() == names.take(i as int));
            assert(n.last() == secrets@[i as int].name@);
            assert(template_of(n) == template_header() + template_body(names.take(i as int))
                + n.last().push('=').push('\n'));
        }
        i = i + 1;
    }
    assert(names.take(i as int) == names);
    output
}

/// A name that a template line gives back unchanged: one line, no `=`, no white
/// space at either end, and not the start of a comment.
pub open spec fn clean_name(n: Seq<char>) -> bool {
    &&& forall|i: int| 0 <= i < n.len() ==> #[trigger] n[i] != '\n' && n[i] != '='
    &&& n.len() == 0 || (!is_white(n[0]) && !is_white(n.last()) && n[0] != '#')
}

/// Text without a newline extends the last line.
pub proof fn lemma_lines_append(s: Seq<char>, t: Seq<char>)
    requires
        forall|i: int| 0 <= i < t.len() ==> #[trigger] t[i] != '\n',
    ensures
        lines_of(s + t) == lines_of(s).update(
            lines_of(s).len() - 1,
            lines_of(s).last() + t,
        ),
    decreases t.len(),
{
    lemma_lines_nonempty(s);
    if t.len() == 0 {
        assert(s + t == s);
        assert(lines_of(s).last() + t == lines_of(s).last());
        assert(lines_of(s).update(lines_of(s).len() - 1, lines_of(s).last()) == lines_of(s));
    } else {
        let t0 = t.drop_last();
        assert forall|i: int| 0 <= i < t0.len() implies #[trigger] t0[i] != '\n' by {
            assert(t0[i] == t[i]);
        }
        lemma_lines_append(s, t0);
        assert(t[t.len() - 1] != '\n');
        assert((s + t).drop_last() == s + t0);
        assert((s + t).last() == t.last());
        let l = lines_of(s);
        let p = lines_of(s + t0);
        assert(p.len() == l.len());
        assert(p.last() == l.last() + t0);
        assert((l.last() + t0).push(t.last()) == l.last() + t);
        assert(lines_of(s + t) == p.update(p.len() - 1, p.last().push(t.last())));
        assert(p.update(p.len() - 1, p.last().push(t.last())) == l.update(
            l.len() - 1,
            l.last() + t,
        ));
    }
}

/// A newline starts a new, empty line.
pub proof fn lemma_lines_newline(s: Seq<char>)
    ensures
        lines_of(s.push('\n')) == lines_of(s).push(Seq::empty()),
{
    assert(s.push('\n').drop_last() == s);
}

/// No line holds a newline.
pub proof fn lemma_lines_one_line(s: Seq<char>)
    ensures
        forall|i: int, j: int|
            0 <= i < lines_of(s).len() && 0 <= j < lines_of(s)[i].len() ==> #[trigger] lines_of(
                s,
            )[i][j] != '\n',
    decreases s.len(),
{
    if s.len() > 0 {
        lemma_lines_one_line(s.drop_last());
        lemma_lines_nonempty(s.drop_last());
        let prev = lines_of(s.drop_last());
        if s.last() != '\n' {
            assert forall|i: int, j: int|
                0 <= i < lines_of(s).len() && 0 <= j < lines_of(s)[i].len() implies #[trigger] lines_of(
                s,
            )[i][j] != '\n' by {
                if i == prev.len() - 1 && j == prev.last().len() {
                } else if i == prev.len() - 1 {
                    assert(lines_of(s)[i][j] == prev[i][j]);
                } else {
                    assert(lines_of(s)[i] == prev[i]);
                }
            }
        } else {
            assert forall|i: int, j: int|
                0 <= i < lines_of(s).len() && 0 <= j < lines_of(s)[i].len() implies #[trigger] lines_of(
                s,
            )[i][j] != '\n' by {
                if i < prev.len() {
                    assert(lines_of(s)[i] == prev[i]);
                }
            }
        }
    }
}

/// Every name that a line gives is clean.
proof fn lemma_parse_line_clean(l: Seq<char>)
    requires
        forall|j: int| 0 <= j < l.len() ==> #[trigger] l[j] != '\n',
        parse_line(l) is Some,
    ensures
        clean_name(parse_line(l).unwrap().0),
{
    let t = trim(l);
    let k = first_index(t, '=');
    let x = t.take(k);
    let n = trim(x);
    lemma_trim_avoids(l, '\n');
    lemma_first_index(t, '=');
    lemma_trim_ends(l);
    lemma_trim_ends(x);
    assert forall|j: int| 0 <= j < x.len() implies #[trigger] x[j] != '\n' && x[j] != '=' by {
        assert(x[j] == t[j]);
    }
    lemma_trim_avoids(x, '\n');
    lemma_trim_avoids(x, '=');
    if n.len() > 0 {
        assert(x[0] == t[0]);
        assert(trim_start(x) == x);
        lemma_trim_end_prefix(x);
        assert(n[0] == x[0]);
    }
}

proof fn lemma_entries_clean(ls: Seq<Seq<char>>)
    requires
        forall|i: int, j: int|
            0 <= i < ls.len() && 0 <= j < ls[i].len() ==> #[trigger] ls[i][j] != '\n',
    ensures
        forall|i: int|
            0 <= i < entries_of_lines(ls).len() ==> clean_name(#[trigger] entries_of_lines(ls)[i].0),
    decreases ls.len(),
{
    if ls.len() > 0 {
        let prev = ls.drop_last();
        assert forall|i: int, j: int|
            0 <= i < prev.len() && 0 <= j < prev[i].len() implies #[trigger] prev[i][j]
            != '\n' by {
            assert(prev[i] == ls[i]);
        }
        lemma_entries_clean(prev);
        let l = ls.last();
        assert forall|j: int| 0 <= j < l.len() implies #[trigger] l[j] != '\n' by {
            assert(l[j] == ls[ls.len() - 1][j]);
        }
        if parse_line(l) is Some {
            lemma_parse_line_clean(l);
        }
        let ep = entries_of_lines(prev);
        assert forall|i: int|
            0 <= i < entries_of_lines(ls).len() implies clean_name(
            #[trigger] entries_of_lines(ls)[i].0,
        ) by {
            if i < ep.len() {
                assert(entries_of_lines(ls)[i] == ep[i]);
            }
        }
    }
}

/// The line `n=` gives the entry `(n, "")`.
proof fn lemma_parse_template_line(n: Seq<char>)
    requires
        clean_name(n),
    ensures
        parse_line(n.push('=')) == Some((n, Seq::<char>::empty())),
{
    let l = n.push('=');
    if n.len() > 0 {
        assert(l[0] == n[0]);
    }
    lemma_trim_fixed(l);
    assert forall|j: int| 0 <= j < n.len() implies #[trigger] l[j] != '=' by {
        assert(l[j] == n[j]);
    }
    lemma_first_index_exact(l, '=', n.len() as int);
    assert(l.take(n.len() as int) == n);
    lemma_trim_fixed(n);
    assert(l.skip(n.len() as int + 1) == Seq::<char>::empty());
}

proof fn lemma_comment_line(c: Seq<char>)
    requires
        c.len() > 0,
        c[0] == '#',
        !is_white(c.last()),
    ensures
        parse_line(c) is None,
{
    lemma_trim_fixed(c);
}

proof fn lemma_header_lines()
    ensures
        lines_of(template_header()) == seq![
            TEMPLATE_TITLE@,
            TEMPLATE_USAGE@,
            Seq::<char>::empty(),
            Seq::<char>::empty(),
        ],
        TEMPLATE_TITLE@.len() > 0 && TEMPLATE_TITLE@[0] == '#',
        TEMPLATE_USAGE@.len() > 0 && TEMPLATE_USAGE@[0] == '#',
        lines_of(template_header()).last() == Seq::<char>::empty(),
        entries_of_lines(lines_of(template_header())) == Seq::<Entry>::empty(),
{
    let a = TEMPLATE_TITLE@;
    let b = TEMPLATE_USAGE@;
    reveal_strlit("# Secrets template generated by supamigrate");
    reveal_strlit(
        "# Fill in the values below and use with: supamigrate secrets import --file <this-file>",
    );
    let e = Seq::<char>::empty();
    assert(lines_of(e) == seq![e]);
    lemma_lines_append(e, a);
    assert(e + a == a);
    assert(lines_of(a) == seq![a]);
    lemma_lines_newline(a);
    lemma_lines_append(a.push('\n'), b);
    lemma_lines_newline(a.push('\n') + b);
    lemma_lines_newline((a.push('\n') + b).push('\n'));
    assert(template_header() == (a.push('\n') + b).push('\n').push('\n'));
    let ls = seq![a, b, e, e];
    assert(lines_of(template_header()) == ls);
    lemma_comment_line(a);
    lemma_comment_line(b);
    assert(parse_line(e) is None);
    let z = Seq::<Seq<char>>::empty();
    assert(seq![a].drop_last() == z);
    assert(entries_of_lines(z) == Seq::<Entry>::empty());
    assert(parse_line(a) is None);
    assert(seq![a].last() == a);
    assert(seq![a, b].last() == b);
    assert(seq![a, b, e].last() == e);
    assert(ls.last() == e);
    assert(entries_of_lines(seq![a]) == Seq::<Entry>::empty());
    assert(seq![a, b].drop_last() == seq![a]);
    assert(entries_of_lines(seq![a, b]) == Seq::<Entry>::empty());
    assert(seq![a, b, e].drop_last() == seq![a, b]);
    assert(entries_of_lines(seq![a, b, e]) == Seq::<Entry>::empty());
    assert(ls.drop_last() == seq![a, b, e]);
    assert(entries_of_lines(ls) == Seq::<Entry>::empty());
}

/// The lines of a template of clean names: two comment lines and a blank
/// line, then `NAME=` for each name in order, with no value, then nothing
/// after the last newline. Read back, it gives exactly those names, in order,
/// each with an empty value.
pub proof fn lemma_template_entries(names: Seq<Seq<char>>)
    requires
        forall|i: int| 0 <= i < names.len() ==> clean_name(#[trigger] names[i]),
    ensures
        lines_of(template_of(names)) == seq![TEMPLATE_TITLE@, TEMPLATE_USAGE@, Seq::<char>::empty()]
            + names.map_values(|n: Seq<char>| n.push('=')) + seq![Seq::<char>::empty()],
        TEMPLATE_TITLE@[0] == '#' && TEMPLATE_USAGE@[0] == '#',
        lines_of(template_of(names)).last() == Seq::<char>::empty(),
        parse_env(template_of(names)) == names.map_values(
            |n: Seq<char>| (n, Seq::<char>::empty()),
        ),
    decreases names.len(),
{
    lemma_header_lines();
    if names.len() == 0 {
        assert(template_of(names) == template_header());
        assert(names.map_values(|n: Seq<char>| n.push('=')) == Seq::<Seq<char>>::empty());
        assert(seq![TEMPLATE_TITLE@, TEMPLATE_USAGE@, Seq::<char>::empty()] + Seq::<Seq<char>>::empty()
            + seq![Seq::<char>::empty()] == seq![
            TEMPLATE_TITLE@,
            TEMPLATE_USAGE@,
            Seq::<char>::empty(),
            Seq::<char>::empty(),
        ]);
    } else {
        let prev = names.drop_last();
        let n = names.last();
        assert forall|i: int| 0 <= i < prev.len() implies clean_name(#[trigger] prev[i]) by {
            assert(prev[i] == names[i]);
        }
        lemma_template_entries(prev);
        let p = template_of(prev);
        lemma_lines_nonempty(p);
        let lp = lines_of(p);
        assert(template_of(names) == (p + n.push('=')).push('\n'));
        assert forall|i: int| 0 <= i < n.push('=').len() implies #[trigger] n.push('=')[i]
            != '\n' by {
            if i < n.len() {
                assert(n.push('=')[i] == n[i]);
            }
        }
        lemma_lines_append(p, n.push('='));
        lemma_lines_newline(p + n.push('='));
        assert(lp.last() + n.push('=') == n.push('='));
        let lq = lp.update(lp.len() - 1, n.push('='));
        assert(lines_of(template_of(names)) == lq.push(Seq::<char>::empty()));
        lemma_parse_template_line(n);
        assert(lines_of(template_of(names)).drop_last() == lq);
        assert(lq.drop_last() == lp.drop_last());
        assert(parse_line(Seq::<char>::empty()) is None);
        assert(entries_of_lines(lp) == entries_of_lines(lp.drop_last()));
        assert(lq.last() == n.push('='));
        assert(entries_of_lines(lq) == entries_of_lines(lp.drop_last()).push(
            (n, Seq::<char>::empty()),
        ));
        assert(entries_of_lines(lq.push(Seq::<char>::empty())) == entries_of_lines(lq));
        assert(names.map_values(|n: Seq<char>| (n, Seq::<char>::empty())) == prev.map_values(
            |n: Seq<char>| (n, Seq::<char>::empty()),
        ).push((n, Seq::<char>::empty())));
        let h = seq![TEMPLATE_TITLE@, TEMPLATE_USAGE@, Seq::<char>::empty()];
        let mp = prev.map_values(|n: Seq<char>| n.push('='));
        assert(names.map_values(|n: Seq<char>| n.push('=')) == mp.push(n.push('=')));
        assert(lp == h + mp + seq![Seq::<char>::empty()]);
        assert(lq == h + mp.push(n.push('=')));
        assert(lq.push(Seq::<char>::empty()) == h + mp.push(n.push('=')) + seq![Seq::<char>::empty()]);
    }
}

/// Reading a file, writing the template of the names it gives, and reading that
/// template back yields the same names, in the same order.
pub proof fn lemma_template_round_trip(content: Seq<char>)
    ensures
        names_of(parse_env(template_of(names_of(parse_env(content))))) == names_of(
            parse_env(content),
        ),
{
    let es = parse_env(content);
    let names = names_of(es);
    lemma_lines_one_line(content);
    lemma_entries_clean(lines_of(content));
    assert forall|i: int| 0 <= i < names.len() implies clean_name(#[trigger] names[i]) by {
        assert(names[i] == es[i].0);
    }
    lemma_template_entries(names);
    assert(names_of(names.map_values(|n: Seq<char>| (n, Seq::<char>::empty()))) == names);
}

/// The entries that have a value, in order.
pub open spec fn with_values(es: Seq<Entry>) -> Seq<Entry>
    decreases es.len(),
{
    if es.len() == 0 {
        Seq::empty()
    } else if es.last().1.len() > 0 {
        with_values(es.drop_last()).push(es.last())
    } else {
        with_values(es.drop_last())
    }
}

/// What an import of a secret-value file sends: the secrets that have a
/// value, and how many were left out for having none.
pub struct ImportPlan {
    pub to_create: Vec<Secret>,
    pub empty_count: usize,
}

fn copy_secret(s: &Secret) -> (r: Secret)
    ensures
        r.name@ == s.name@,
        r.value@ == s.value@,
{
    Secret { name: copy_string(&s.name), value: copy_string(&s.value) }
}

/// Splits parsed secrets into those to create, in order, and a count of those
/// skipped because their value is empty.
pub fn plan_import(secrets: &Vec<Secret>) -> (r: ImportPlan)
    ensures
        entries(r.to_create@) == with_values(entries(secrets@)),
        r.empty_count + r.to_create@.len() == secrets@.len(),
{
    let ghost es = entries(secrets@);
    let mut to_create: Vec<Secret> = Vec::new();
    let mut i: usize = 0;
    while i < secrets.len()
        invariant
            i <= secrets@.len(),
            es == entries(secrets@),
            entries(to_create@) == with_values(es.take(i as int)),
            to_create@.len() <= i,
        decreases secrets@.len() - i,
    {
        let ghost before = to_create@;
        assert(es.take(i + 1).drop_last() == es.take(i as int));
        assert(es.take(i + 1).last() == (secrets@[i as int].name@, secrets@[i as int].value@));
        if !secrets[i].value.as_str().is_empty() {
            to_create.push(copy_secret(&secrets[i]));
            assert(entries(to_create@) == entries(before).push(es[i as int]));
        }
        i = i + 1;
    }
    assert(es.take(i as int) == es);
    let empty_count = secrets.len() - to_create.len();
    ImportPlan { to_create, empty_count }
}

pub const IMPORTING: &'static str = "Importing ";
pub const SECRETS_TO: &'static str = " secrets to ";
pub const SKIPPING: &'static str = " (skipping ";
pub const WITH_EMPTY_VALUES: &'static str = " with empty values)";

impl ImportPlan {
    /// What an import reports before it sends anything:
    /// `Importing <n> secrets to <project> (skipping <m> with empty values)`.
    pub fn summary(&self, project: &str) -> (r: String)
        ensures
            r@ == IMPORTING@ + crate::numbers::decimal_of(self.to_create@.len()) + SECRETS_TO@
                + project@ + SKIPPING@ + crate::numbers::decimal_of(self.empty_count as nat)
                + WITH_EMPTY_VALUES@,
    {
        let mut r = String::from_str(IMPORTING);
        crate::numbers::push_decimal(&mut r, self.to_create.len() as u64);
        r.append(SECRETS_TO);
        r.append(project);
        r.append(SKIPPING);
        crate::numbers::push_decimal(&mut r, self.empty_count as u64);
        r.append(WITH_EMPTY_VALUES);
        r
    }
}

/// The first entry named `name` that has a value.
pub open spec fn value_for(file: Seq<Entry>, name: Seq<char>) -> Option<Entry>
    decreases file.len(),
{
    if file.len() == 0 {
        None
    } else if file[0].0 == name && file[0].1.len() > 0 {
        Some(file[0])
    } else {
        value_for(file.drop_first(), name)
    }
}

/// For each name in order, the first entry of the file with that name and a
/// value; names without one are skipped.
pub open spec fn matched_values(names: Seq<Seq<char>>, file: Seq<Entry>) -> Seq<Entry>
    decreases names.len(),
{
    if names.len() == 0 {
        Seq::empty()
    } else {
        let prev = matched_values(names.drop_last(), file);
        match value_for(file, names.last()) {
            Some(e) => prev.push(e),
            None => prev,
        }
    }
}

/// For each name in order, the answer given for it when it is not empty.
pub open spec fn answered_values(names: Seq<Seq<char>>, answers: Seq<Seq<char>>) -> Seq<Entry>
    decreases names.len(),
{
    if names.len() == 0 {
        Seq::empty()
    } else {
        let i = names.len() - 1;
        let prev = answered_values(names.drop_last(), answers);
        if i < answers.len() && answers[i].len() > 0 {
            prev.push((names[i], answers[i]))
        } else {
            prev
        }
    }
}

fn find_value(file: &Vec<Secret>, name: &String) -> (r: Option<usize>)
    ensures
        match value_for(entries(file@), name@) {
            Some(e) => r matches Some(i) && i < file@.len() && entries(file@)[i as int] == e,
            None => r is None,
        },
{
    let ghost es = entries(file@);
    let mut i: usize = 0;
    assert(es.skip(0) == es);
    while i < file.len()
        invariant
            i <= file@.len(),
            es == entries(file@),
            value_for(es, name@) == value_for(es.skip(i as int), name@),
        decreases file@.len() - i,
    {
        let ghost rest = es.skip(i as int);
        assert(rest[0] == es[i as int]);
        assert(rest.drop_first() == es.skip(i + 1));
        if file[i].name == *name && !file[i].value.as_str().is_empty() {
            return Some(i);
        }
        i = i + 1;
    }
    assert(es.skip(i as int).len() == 0);
    None
}

/// The secrets to restore from a backup of names with values read from a
/// secret-value file: for each name, the first value given for it that is not
/// empty. Names without one are skipped, not refused.
pub fn restore_secrets(backup: &SecretsBackup, file: &Vec<Secret>) -> (r: Vec<Secret>)
    ensures
        entries(r@) == matched_values(metadata_names(backup.secrets@), entries(file@)),
{
    let ghost names = metadata_names(backup.secrets@);
    let mut out: Vec<Secret> = Vec::new();
    let mut i: usize = 0;
    while i < backup.secrets.len()
        invariant
            i <= backup.secrets@.len(),
            names == metadata_names(backup.secrets@),
            entries(out@) == matched_values(names.take(i as int), entries(file@)),
        decreases backup.secrets@.len() - i,
    {
        let ghost before = out@;
        assert(names.take(i + 1).drop_last() == names.take(i as int));
        assert(names.take(i + 1).last() == backup.secrets@[i as int].name@);
        match find_value(file, &backup.secrets[i].name) {
            Some(j) => {
                out.push(copy_secret(&file[j]));
                assert(entries(out@) == entries(before).push(entries(file@)[j as int]));
            },
            None => {},
        }
        i = i + 1;
    }
    assert(names.take(i as int) == names);
    out
}

/// The secrets to restore from a backup of names with the values typed in for
/// them, `answers[i]` for the `i`-th name. An empty or missing answer skips the name.
pub fn secrets_from_answers(backup: &SecretsBackup, answers: &Vec<String>) -> (r: Vec<Secret>)
    ensures
        entries(r@) == answered_values(metadata_names(backup.secrets@), views(answers@)),
{
    let ghost names = metadata_names(backup.secrets@);
    let ghost ans = views(answers@);
    let mut out: Vec<Secret> = Vec::new();
    let mut i: usize = 0;
    while i < backup.secrets.len()
        invariant
            i <= backup.secrets@.len(),
            names == metadata_names(backup.secrets@),
            ans == views(answers@),
            entries(out@) == answered_values(names.take(i as int), ans),
        decreases backup.secrets@.len() - i,
    {
        let ghost before = out@;
        let ghost pre = names.take(i + 1);
        assert(pre.drop_last() == names.take(i as int));
        assert(pre[i as int] == backup.secrets@[i as int].name@);
        if i < answers.len() && !answers[i].as_str().is_empty() {
            out.push(
                Secret { name: copy_string(&backup.secrets[i].name), value: copy_string(&answers[i]) },
            );
            assert(entries(out@) == entries(before).push((pre[i as int], ans[i as int])));
        }
        i = i + 1;
    }
    assert(names.take(i as int) == names);
    out
}

/// The management interface that lists and writes write-only secrets.
pub const API_URL: &'static str = "https://api.supabase.com";
pub const PROJECTS_PATH: &'static str = "/v1/projects/";
pub const SECRETS_PATH: &'static str = "/secrets";
pub const BEARER: &'static str = "Bearer ";
pub const BACKUP_NOTE: &'static str =
    "Secret values cannot be backed up via API. You must provide values during restore.";
pub const LIST_ACTION: &'static str = "list secrets";
pub const CREATE_ACTION: &'static str = "create secrets";
pub const DELETE_ACTION: &'static str = "delete secrets";

#[derive(Clone, Copy, PartialEq, Eq, Structural, Debug)]
pub enum HttpMethod {
    Get,
    Post,
    Delete,
}

/// One call of the management interface, without its JSON body: the secrets
/// or names it carries are the ones the call was built from.
pub struct ApiRequest {
    pub method: HttpMethod,
    pub url: String,
    pub authorization: String,
}

/// The write-only secrets of one project, reached with a personal access token.
pub struct SecretsClient {
    project_ref: String,
    access_token: String,
}

/// The address of a project's secrets.
pub open spec fn secrets_url_spec(project_ref: Seq<char>) -> Seq<char> {
    API_URL@ + PROJECTS_PATH@ + project_ref + SECRETS_PATH@
}

impl SecretsClient {
    pub closed spec fn spec_project_ref(&self) -> Seq<char> {
        self.project_ref@
    }

    pub closed spec fn spec_access_token(&self) -> Seq<char> {
        self.access_token@
    }

    pub fn new(project_ref: String, access_token: String) -> (r: SecretsClient)
        ensures
            r.spec_project_ref() == project_ref@,
            r.spec_access_token() == access_token@,
    {
        SecretsClient { project_ref, access_token }
    }

    /// The bearer credential every request carries.
    pub fn auth_header(&self) -> (r: String)
        ensures
            r@ == BEARER@ + self.spec_access_token(),
    {
        let mut r = String::from_str(BEARER);
        r.append(self.access_token.as_str());
        r
    }

    /// The address of this project's secrets.
    pub fn secrets_url(&self) -> (r: String)
        ensures
            r@ == secrets_url_spec(self.spec_project_ref()),
    {
        let mut r = String::from_str(API_URL);
        r.append(PROJECTS_PATH);
        r.append(self.project_ref.as_str());
        r.append(SECRETS_PATH);
        r
    }

    fn request(&self, method: HttpMethod) -> (r: ApiRequest)
        ensures
            r.method == method,
            r.url@ == secrets_url_spec(self.spec_project_ref()),
            r.authorization@ == BEARER@ + self.spec_access_token(),
    {
        ApiRequest { method, url: self.secrets_url(), authorization: self.auth_header() }
    }

    /// The request that lists the names of the secrets.
    pub fn list_secrets(&self) -> (r: ApiRequest)
        ensures
            r.method == HttpMethod::Get,
            r.url@ == secrets_url_spec(self.spec_project_ref()),
            r.authorization@ == BEARER@ + self.spec_access_token(),
    {
        self.request(HttpMethod::Get)
    }

    /// The request that creates or updates `secrets`; none when there is nothing to send.
    pub fn create_secrets(&self, secrets: &[Secret]) -> (r: Option<ApiRequest>)
        ensures
            r is None <==> secrets@.len() == 0,
            r matches Some(q) ==> q.method == HttpMethod::Post && q.url@ == secrets_url_spec(
                self.spec_project_ref(),
            ) && q.authorization@ == BEARER@ + self.spec_access_token(),
    {
        if secrets.len() == 0 {
            None
        } else {
            Some(self.request(HttpMethod::Post))
        }
    }

    /// The request that deletes the secrets named `names`; none when there is nothing to send.
    pub fn delete_secrets(&self, names: &[String]) -> (r: Option<ApiRequest>)
        ensures
            r is None <==> names@.len() == 0,
            r matches Some(q) ==> q.method == HttpMethod::Delete && q.url@ == secrets_url_spec(
                self.spec_project_ref(),
            ) && q.authorization@ == BEARER@ + self.spec_access_token(),
    {
        if names.len() == 0 {
            None
        } else {
            Some(self.request(HttpMethod::Delete))
        }
    }

    /// The backup of the names listed; it notes that values are not part of it.
    pub fn backup(names: Vec<SecretMetadata>) -> (r: SecretsBackup)
        ensures
            r.secrets@ == names@,
            r.note@ == BACKUP_NOTE@,
    {
        SecretsBackup { secrets: names, note: String::from_str(BACKUP_NOTE) }
    }
}

/// The result of a call of the management interface: a 2xx status is success;
/// any other is a remote failure that keeps the status and the body as received.
pub fn check_response(action: &str, status: u16, body: String) -> (r: Result<(), MigrateError>)
    ensures
        200 <= status <= 299 ==> r is Ok,
        !(200 <= status <= 299) ==> (r matches Err(MigrateError::RemoteApiFailure { action: a, status: s, body: b })
            && a@ == action@ && s == status && b@ == body@),
{
    if 200 <= status && status <= 299 {
        Ok(())
    } else {
        Err(MigrateError::RemoteApiFailure { action: action.to_owned(), status, body })
    }
}

} // verus!
