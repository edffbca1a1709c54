//! Parsing of the control fields that `dpkg-deb --info` prints.
use vstd::prelude::*;

use crate::models::package::{opt_view, string_views, DebInfo};
use crate::utils::dpkg::{decode_lossy, lossy_text};
use crate::text::{
    all_ascii, ascii_lower, chars_eq, chars_of, drop_empty, copy_range, find_char, first, lemma_first,
    lemma_lines_append, lemma_lines_append_ended, lemma_split_acc_append, lemma_trim_ends, lemma_trim_fixed,
    lemma_trim_idempotent, lines, lines_of, lowercase,
    split, split_chars, string_of, to_lowercase, trim, trim_chars, views,
};

verus! {

// ---------------------------------------------------------------------------
// Specification
// ---------------------------------------------------------------------------

/// A control field: its key and its value.
pub type Field = (Seq<char>, Seq<char>);

/// The parser's state between lines: the finished fields, the key of the
/// field being read, and its value so far.
pub type ControlState = (Seq<Field>, Option<Seq<char>>, Seq<char>);

/// A line with the one leading space that `dpkg-deb --info` adds removed.
pub open spec fn logical_line(line: Seq<char>) -> Seq<char> {
    if line.len() > 0 && line[0] == ' ' {
        line.drop_first()
    } else {
        line
    }
}

/// A continuation line of a multi-line field: it starts with a space or a
/// tab, or is a lone `.`.
pub open spec fn is_continuation(l: Seq<char>) -> bool {
    (l.len() > 0 && (l[0] == ' ' || l[0] == '\t')) || l == seq!['.']
}

/// The finished fields, with the field being read (its value trimmed) added.
pub open spec fn flush(st: ControlState) -> Seq<Field> {
    match st.1 {
        Some(k) => st.0.push((k, trim(st.2))),
        None => st.0,
    }
}

/// One line read. A continuation line extends the current value (a lone
/// `.` adds nothing; later pieces go on new lines); a line with a `:` ends
/// the current field and starts a field keyed by the trimmed text before the
/// first `:`; any other line is ignored.
pub open spec fn control_step(st: ControlState, line: Seq<char>) -> ControlState {
    let l = logical_line(line);
    if is_continuation(l) {
        if st.1 is Some {
            let t = trim(l);
            if t == seq!['.'] {
                st
            } else if st.2.len() == 0 {
                (st.0, st.1, t)
            } else {
                (st.0, st.1, st.2.push('\n') + t)
            }
        } else {
            st
        }
    } else if first(l, ':') < l.len() {
        let p = first(l, ':');
        (flush(st), Some(trim(l.take(p))), trim(l.skip(p + 1)))
    } else {
        st
    }
}

/// The state after reading the given lines in order.
pub open spec fn control_fold(ls: Seq<Seq<char>>) -> ControlState
    decreases ls.len(),
{
    if ls.len() == 0 {
        (Seq::empty(), None, Seq::empty())
    } else {
        control_step(control_fold(ls.drop_last()), ls.last())
    }
}

/// The fields of a control text, in order of appearance, with the keys as
/// written (trimmed).
pub open spec fn control_fields(text: Seq<char>) -> Seq<Field> {
    flush(control_fold(lines(text)))
}

/// The fields with each key lowercased.
pub open spec fn lowercase_keys(fs: Seq<Field>) -> Seq<Field> {
    fs.map_values(|f: Field| (lowercase(f.0), f.1))
}

/// Every key made of ASCII characters lowercases the ASCII way.
pub open spec fn ascii_keys_lowered(fs: Seq<Field>) -> bool {
    forall|i: int|
        0 <= i < fs.len() && all_ascii(#[trigger] fs[i].0) ==> lowercase(fs[i].0) == ascii_lower(
            fs[i].0,
        )
}

/// The value of the last field with key `k`: a later field replaces an
/// earlier one.
pub open spec fn lookup(fs: Seq<Field>, k: Seq<char>) -> Option<Seq<char>>
    decreases fs.len(),
{
    if fs.len() == 0 {
        None
    } else if fs.last().0 == k {
        Some(fs.last().1)
    } else {
        lookup(fs.drop_last(), k)
    }
}

pub open spec fn or_default(o: Option<Seq<char>>, d: Seq<char>) -> Seq<char> {
    match o {
        Some(v) => v,
        None => d,
    }
}

pub open spec fn is_digit(c: char) -> bool {
    '0' <= c && c <= '9'
}

/// The number written by a sequence of decimal digits.
pub open spec fn digits_value(s: Seq<char>) -> nat
    decreases s.len(),
{
    if s.len() == 0 {
        0
    } else {
        digits_value(s.drop_last()) * 10 + ((s.last() as int) - ('0' as int)) as nat
    }
}

/// The text after an optional leading `+`.
pub open spec fn unsigned_digits(s: Seq<char>) -> Seq<char> {
    if s.len() > 0 && s[0] == '+' {
        s.drop_first()
    } else {
        s
    }
}

pub open spec fn all_digits(d: Seq<char>) -> bool {
    forall|i: int| 0 <= i < d.len() ==> is_digit(#[trigger] d[i])
}

/// `str::parse::<u64>`: an optional `+`, then one or more ASCII digits whose
/// value fits in a `u64`.
pub open spec fn parse_u64(s: Seq<char>) -> Option<u64> {
    let d = unsigned_digits(s);
    if d.len() > 0 && all_digits(d) && digits_value(d) <= u64::MAX {
        Some(digits_value(d) as u64)
    } else {
        None
    }
}

/// The comma-separated items of a `Depends` value, trimmed, empty ones left
/// out.
pub open spec fn depends_list(v: Seq<char>) -> Seq<Seq<char>> {
    drop_empty(split(v, ',').map_values(|d: Seq<char>| trim(d)))
}

/// `info` is what the fields (keys lowercased) describe: a missing
/// `Package`, `Version` or `Architecture` reads `unknown`, a missing
/// `Description` or `Maintainer` is empty, a missing or unreadable
/// `Installed-Size` is 0, and a missing `Depends` gives no dependencies.
pub open spec fn describes(info: DebInfo, fs: Seq<Field>) -> bool {
    &&& info.name@ == or_default(lookup(fs, "package"@), "unknown"@)
    &&& info.version@ == or_default(lookup(fs, "version"@), "unknown"@)
    &&& info.architecture@ == or_default(lookup(fs, "architecture"@), "unknown"@)
    &&& info.description@ == or_default(lookup(fs, "description"@), Seq::empty())
    &&& info.maintainer@ == or_default(lookup(fs, "maintainer"@), Seq::empty())
    &&& opt_view(info.section) == lookup(fs, "section"@)
    &&& info.installed_size_kb == match lookup(fs, "installed-size"@) {
        Some(v) => match parse_u64(v) {
            Some(n) => n,
            None => 0,
        },
        None => 0,
    }
    &&& string_views(info.depends@) == match lookup(fs, "depends"@) {
        Some(v) => depends_list(v),
        None => Seq::empty(),
    }
}

/// The fields held by a vector of string pairs.
pub open spec fn string_pairs(v: Seq<(String, String)>) -> Seq<Field> {
    v.map_values(|p: (String, String)| (p.0@, p.1@))
}

/// The fields held by a vector of character-vector pairs.
pub open spec fn char_pairs(v: Seq<(Vec<char>, Vec<char>)>) -> Seq<Field> {
    v.map_values(|p: (Vec<char>, Vec<char>)| (p.0@, p.1@))
}

pub open spec fn opt_chars(o: Option<Vec<char>>) -> Option<Seq<char>> {
    match o {
        Some(v) => Some(v@),
        None => None,
    }
}

// ---------------------------------------------------------------------------
// Lemmas
// ---------------------------------------------------------------------------

proof fn lemma_digits_value_prefix(s: Seq<char>, i: int)
    requires
        0 <= i <= s.len(),
    ensures
        digits_value(s.take(i)) <= digits_value(s),
    decreases s.len() - i,
{
    if i < s.len() {
        lemma_digits_value_prefix(s.drop_last(), i);
        assert(s.drop_last().take(i) =~= s.take(i));
        assert(s.take(s.len() as int) =~= s);
    } else {
        assert(s.take(i) =~= s);
    }
}

// ---------------------------------------------------------------------------
// Laws
// ---------------------------------------------------------------------------

/// A `Key: value` line added at the end of a control text adds exactly one
/// field: the key is the trimmed text before the line's first `:`, and the
/// value is the whole trimmed rest of the line, whatever `:` it holds
/// (`Version: 2:9.0.1378-2` has value `2:9.0.1378-2`). The fields read
/// before the line stay as they were.
pub proof fn law_key_value_line(t: Seq<char>, k: Seq<char>, v: Seq<char>)
    requires
        k.len() > 0,
        k[0] != ' ' && k[0] != '\t',
        !k.contains(':'),
        !k.contains('\n'),
        !v.contains('\n'),
    ensures
        control_fields(t + seq!['\n', ' '] + k + seq![':'] + v) == control_fields(
            t + seq!['\n'],
        ).push((trim(k), trim(v))),
{
    let line = seq![' '] + k + seq![':'] + v;
    assert(!line.contains('\n')) by {
        if line.contains('\n') {
            let j = choose|j: int| 0 <= j < line.len() && line[j] == '\n';
            if 1 <= j < 1 + k.len() {
                assert(k[j - 1] == '\n');
            } else if j > 1 + k.len() {
                assert(v[j - 2 - k.len()] == '\n');
            }
        }
    }
    assert(t + seq!['\n', ' '] + k + seq![':'] + v =~= t + seq!['\n'] + line);
    lemma_lines_append(t, line);
    let ls = lines(t + seq!['\n']);
    assert(ls.push(line).drop_last() =~= ls);
    let l = k + seq![':'] + v;
    assert(logical_line(line) =~= l);
    assert(!is_continuation(l)) by {
        assert(l[0] == k[0]);
        if l == seq!['.'] {
            assert(l.len() == 1);
        }
    }
    lemma_first(l, ':');
    assert(first(l, ':') == k.len()) by {
        assert(l[k.len() as int] == ':');
        if first(l, ':') < k.len() {
            assert(k[first(l, ':')] == ':');
        }
    }
    assert(l.take(k.len() as int) =~= k);
    assert(l.skip(k.len() + 1 as int) =~= v);
    lemma_trim_idempotent(v);
}

/// An indented line after a `Key: value` line continues that field's
/// value on a new line (trimmed); a lone `.` adds nothing, and a field with
/// an empty first line takes the continuation as its value.
pub proof fn law_continuation_line(t: Seq<char>, k: Seq<char>, v: Seq<char>, c: Seq<char>)
    requires
        k.len() > 0,
        k[0] != ' ' && k[0] != '\t',
        !k.contains(':'),
        !k.contains('\n') && !k.contains('\r'),
        !v.contains('\n') && !v.contains('\r'),
        c.len() > 0 && (c[0] == ' ' || c[0] == '\t'),
        !c.contains('\n'),
        trim(c).len() > 0,
    ensures
        control_fields(t + seq!['\n', ' '] + k + seq![':'] + v + seq!['\n', ' '] + c)
            == control_fields(t + seq!['\n']).push(
            (
                trim(k),
                if trim(c) == seq!['.'] {
                    trim(v)
                } else if trim(v).len() == 0 {
                    trim(c)
                } else {
                    trim(v) + seq!['\n'] + trim(c)
                },
            ),
        ),
{
    let l1 = seq![' '] + k + seq![':'] + v;
    let l2 = seq![' '] + c;
    assert(!l1.contains('\n') && !l1.contains('\r')) by {
        if l1.contains('\n') || l1.contains('\r') {
            let j = choose|j: int| 0 <= j < l1.len() && (l1[j] == '\n' || l1[j] == '\r');
            if 1 <= j < 1 + k.len() {
                assert(k[j - 1] == l1[j]);
            } else if j > 1 + k.len() {
                assert(v[j - 2 - k.len()] == l1[j]);
            }
        }
    }
    assert(!l2.contains('\n')) by {
        if l2.contains('\n') {
            let j = choose|j: int| 0 <= j < l2.len() && l2[j] == '\n';
            assert(c[j - 1] == '\n');
        }
    }
    let text = t + seq!['\n', ' '] + k + seq![':'] + v + seq!['\n', ' '] + c;
    let u = t + seq!['\n'] + l1;
    assert(text =~= u + seq!['\n'] + l2);
    lemma_lines_append(u, l2);
    lemma_lines_append_ended(t, l1);
    assert(u + seq!['\n'] =~= t + seq!['\n'] + l1 + seq!['\n']);
    let ls = lines(t + seq!['\n']);
    assert(lines(text) == ls.push(l1).push(l2));
    assert(ls.push(l1).push(l2).drop_last() =~= ls.push(l1));
    assert(ls.push(l1).drop_last() =~= ls);
    let st = control_fold(ls);
    let l = k + seq![':'] + v;
    assert(logical_line(l1) =~= l);
    assert(!is_continuation(l)) by {
        assert(l[0] == k[0]);
        if l == seq!['.'] {
            assert(l.len() == 1);
        }
    }
    lemma_first(l, ':');
    assert(first(l, ':') == k.len()) by {
        assert(l[k.len() as int] == ':');
        if first(l, ':') < k.len() {
            assert(k[first(l, ':')] == ':');
        }
    }
    assert(l.take(k.len() as int) =~= k);
    assert(l.skip(k.len() + 1 as int) =~= v);
    let st1 = control_step(st, l1);
    assert(st1 == (flush(st), Some(trim(k)), trim(v)));
    assert(logical_line(l2) =~= c);
    assert(is_continuation(c));
    lemma_trim_idempotent(v);
    lemma_trim_idempotent(c);
    lemma_trim_ends(v);
    lemma_trim_ends(c);
    assert(control_fold(ls.push(l1)) == st1);
    assert(control_fold(lines(text)) == control_step(st1, l2));
    if trim(c) != seq!['.'] && trim(v).len() > 0 {
        let w = trim(v).push('\n') + trim(c);
        assert(w =~= trim(v) + seq!['\n'] + trim(c));
        assert(w[0] == trim(v)[0]);
        assert(w[w.len() - 1] == trim(c)[trim(c).len() - 1]);
        lemma_trim_fixed(w);
    }
}

/// The dependency list of a `Depends` value holds its comma-separated
/// items, trimmed, empty ones left out: a value with no comma gives its
/// trimmed text (nothing when that is empty), and one more `, item` at the
/// end adds that item the same way.
pub proof fn law_depends_items(a: Seq<char>, b: Seq<char>)
    requires
        !b.contains(','),
    ensures
        depends_list(b) == (if trim(b).len() > 0 {
            seq![trim(b)]
        } else {
            Seq::<Seq<char>>::empty()
        }),
        depends_list(a + seq![','] + b) == depends_list(a) + (if trim(b).len() > 0 {
            seq![trim(b)]
        } else {
            Seq::<Seq<char>>::empty()
        }),
{
    let e = Seq::<char>::empty();
    lemma_split_acc_append(e, b, ',');
    assert(e + b =~= b);
    assert(split(b, ',') =~= seq![b]);
    let m0 = split(b, ',').map_values(|d: Seq<char>| trim(d));
    assert(m0 =~= seq![trim(b)]);
    assert(m0.drop_last() =~= Seq::<Seq<char>>::empty());
    assert(drop_empty(m0.drop_last()) =~= Seq::<Seq<char>>::empty());
    assert(m0.last() == trim(b));
    if trim(b).len() > 0 {
        assert(drop_empty(m0) =~= seq![trim(b)]);
    } else {
        assert(drop_empty(m0) =~= Seq::<Seq<char>>::empty());
    }
    let u = a + seq![','];
    lemma_split_acc_append(u, b, ',');
    assert(u.drop_last() =~= a);
    assert(crate::text::split_acc(u, ',').1 + b =~= b);
    assert(split(a + seq![','] + b, ',') =~= split(a, ',').push(b));
    let m = split(a, ',').push(b).map_values(|d: Seq<char>| trim(d));
    assert(m.drop_last() =~= split(a, ',').map_values(|d: Seq<char>| trim(d)));
    assert(m.last() == trim(b));
    if trim(b).len() > 0 {
        assert(drop_empty(m) =~= depends_list(a).push(trim(b)));
        assert(depends_list(a).push(trim(b)) =~= depends_list(a) + seq![trim(b)]);
    } else {
        assert(depends_list(a) + Seq::<Seq<char>>::empty() =~= depends_list(a));
    }
}

/// In what `parse_control_fields` describes, a `Key: value` line is found
/// under its key lowercased (for an ASCII key) with the whole trimmed rest
/// of the line as value, and it replaces any earlier field of that key.
pub proof fn law_last_field_wins(t: Seq<char>, k: Seq<char>, v: Seq<char>)
    requires
        k.len() > 0,
        k[0] != ' ' && k[0] != '\t',
        !k.contains(':'),
        !k.contains('\n'),
        !v.contains('\n'),
        all_ascii(trim(k)),
        ascii_keys_lowered(control_fields(t + seq!['\n', ' '] + k + seq![':'] + v)),
    ensures
        lookup(
            lowercase_keys(control_fields(t + seq!['\n', ' '] + k + seq![':'] + v)),
            ascii_lower(trim(k)),
        ) == Some(trim(v)),
{
    law_key_value_line(t, k, v);
    let fs = control_fields(t + seq!['\n', ' '] + k + seq![':'] + v);
    assert(fs[fs.len() - 1] == (trim(k), trim(v)));
    assert(lowercase(fs[fs.len() - 1].0) == ascii_lower(fs[fs.len() - 1].0));
}

/// The version that `parse_control_fields` reports for a text whose last
/// line is `Version: value` is the whole trimmed value, colons included.
pub proof fn law_version_line(t: Seq<char>, v: Seq<char>, info: DebInfo)
    requires
        !v.contains('\n'),
        describes(info, lowercase_keys(control_fields(t + "\n Version:"@ + v))),
        ascii_keys_lowered(control_fields(t + "\n Version:"@ + v)),
    ensures
        info.version@ == trim(v),
{
    reveal_strlit("\n Version:");
    reveal_strlit("Version");
    reveal_strlit("version");
    let k = "Version"@;
    assert(t + "\n Version:"@ + v =~= t + seq!['\n', ' '] + k + seq![':'] + v);
    assert(!k.contains(':') && !k.contains('\n')) by {
        if k.contains(':') || k.contains('\n') {
            let j = choose|j: int| 0 <= j < k.len() && (k[j] == ':' || k[j] == '\n');
        }
    }
    law_key_value_line(t, k, v);
    let fs = control_fields(t + "\n Version:"@ + v);
    let last = fs.len() - 1;
    assert(fs[last] == (trim(k), trim(v)));
    assert(trim(k) =~= k) by {
        assert(!crate::text::is_ws(k[0]));
        assert(!crate::text::is_ws(k[k.len() - 1]));
        assert(crate::text::lead_end(k, 0) == 0);
        assert(crate::text::trail_end(k.skip(0), k.len() as int) == k.len());
        assert(k.skip(0) =~= k);
        assert(k.take(k.len() as int) =~= k);
    }
    assert(all_ascii(k));
    assert(lowercase(fs[last].0) == ascii_lower(fs[last].0));
    assert(ascii_lower(k) =~= "version"@);
    assert(lowercase_keys(fs).last() == ("version"@, trim(v)));
}

// ---------------------------------------------------------------------------
// Implementation
// ---------------------------------------------------------------------------

/// `str::parse::<u64>` on characters.
pub fn parse_u64_chars(s: &[char]) -> (r: Option<u64>)
    ensures
        r == parse_u64(s@),
{
    let start: usize = if s.len() > 0 && s[0] == '+' {
        1
    } else {
        0
    };
    let ghost d = unsigned_digits(s@);
    assert(d =~= s@.skip(start as int));
    if start == s.len() {
        assert(d.len() == 0);
        assert(parse_u64(s@).is_none());
        return None;
    }
    let mut acc: u64 = 0;
    let mut i: usize = start;
    while i < s.len()
        invariant
            start <= i <= s.len(),
            d == s@.skip(start as int),
            d == unsigned_digits(s@),
            forall|k: int| 0 <= k < i - start ==> is_digit(#[trigger] d[k]),
            acc == digits_value(d.take(i - start)),
        decreases s.len() - i,
    {
        let c = s[i];
        if !('0' <= c && c <= '9') {
            assert(d[i - start] == c);
            assert(!is_digit(d[i - start]));
            assert(!all_digits(d));
            assert(parse_u64(s@).is_none());
            return None;
        }
        assert(d.take(i - start + 1).drop_last() =~= d.take(i - start));
        assert(d.take(i - start + 1).last() == c);
        let digit = (c as u32) - ('0' as u32);
        assert(digits_value(d.take(i - start + 1)) == acc * 10 + digit);
        match acc.checked_mul(10) {
            Some(m) => match m.checked_add(digit as u64) {
                Some(n) => {
                    acc = n;
                },
                None => {
                    proof {
                        lemma_digits_value_prefix(d, i - start + 1);
                    }
                    assert(digits_value(d) > u64::MAX);
                    assert(parse_u64(s@).is_none());
                    return None;
                },
            },
            None => {
                proof {
                    lemma_digits_value_prefix(d, i - start + 1);
                }
                assert(digits_value(d) > u64::MAX);
                assert(parse_u64(s@).is_none());
                return None;
            },
        }
        i = i + 1;
    }
    assert(d.take(i - start) =~= d);
    Some(acc)
}

/// The fields of a control text as character pairs.
fn fields_of(text: &[char]) -> (r: Vec<(Vec<char>, Vec<char>)>)
    ensures
        char_pairs(r@) == control_fields(text@),
{
    let ls = lines_of(text);
    let mut fields: Vec<(Vec<char>, Vec<char>)> = Vec::new();
    let mut key: Option<Vec<char>> = None;
    let mut value: Vec<char> = Vec::new();
    let mut i: usize = 0;
    while i < ls.len()
        invariant
            i <= ls.len(),
            views(ls@) == lines(text@),
            (char_pairs(fields@), opt_chars(key), value@) == control_fold(
                views(ls@).take(i as int),
            ),
        decreases ls.len() - i,
    {
        let ghost st = control_fold(views(ls@).take(i as int));
        assert(views(ls@).take(i + 1).drop_last() =~= views(ls@).take(i as int));
        let line = &ls[i];
        let logical = if line.len() > 0 && line[0] == ' ' {
            copy_range(line.as_slice(), 1, line.len())
        } else {
            copy_range(line.as_slice(), 0, line.len())
        };
        assert(logical@ =~= logical_line(line@));
        let n = logical.len();
        let is_dot = n == 1 && logical[0] == '.';
        proof {
            if is_dot {
                assert(logical@ =~= seq!['.']);
            }
        }
        if (n > 0 && (logical[0] == ' ' || logical[0] == '\t')) || is_dot {
            if key.is_some() {
                let mut t = trim_chars(logical.as_slice());
                let t_is_dot = t.len() == 1 && t[0] == '.';
                proof {
                    if t_is_dot {
                        assert(t@ =~= seq!['.']);
                    }
                }
                if !t_is_dot {
                    if value.len() == 0 {
                        value = t;
                    } else {
                        value.push('\n');
                        value.append(&mut t);
                    }
                }
            }
        } else {
            let p = find_char(logical.as_slice(), ':');
            if p < n {
                proof {
                    lemma_first(logical@, ':');
                }
                match key {
                    Some(k) => {
                        let v = trim_chars(value.as_slice());
                        fields.push((k, v));
                    },
                    None => {},
                }
                let head = copy_range(logical.as_slice(), 0, p);
                let tail = copy_range(logical.as_slice(), p + 1, n);
                key = Some(trim_chars(head.as_slice()));
                value = trim_chars(tail.as_slice());
            }
        }
        i = i + 1;
        assert(char_pairs(fields@) =~= control_fold(views(ls@).take(i as int)).0);
    }
    assert(views(ls@).take(ls.len() as int) =~= views(ls@));
    match key {
        Some(k) => {
            let v = trim_chars(value.as_slice());
            fields.push((k, v));
        },
        None => {},
    }
    assert(char_pairs(fields@) =~= control_fields(text@));
    fields
}

/// The fields of a control text, keys and values as written (trimmed), in
/// order of appearance.
pub fn control_fields_of(text: &str) -> (r: Vec<(String, String)>)
    ensures
        string_pairs(r@) == control_fields(text@),
{
    let cs = chars_of(text);
    let fs = fields_of(cs.as_slice());
    let mut out: Vec<(String, String)> = Vec::new();
    let mut i: usize = 0;
    while i < fs.len()
        invariant
            i <= fs.len(),
            string_pairs(out@) == char_pairs(fs@).take(i as int),
        decreases fs.len() - i,
    {
        let k = string_of(fs[i].0.as_slice());
        let v = string_of(fs[i].1.as_slice());
        let ghost prev = out@;
        out.push((k, v));
        assert(string_pairs(out@) =~= string_pairs(prev).push(char_pairs(fs@)[i as int]));
        i = i + 1;
        assert(string_pairs(out@) =~= char_pairs(fs@).take(i as int));
    }
    assert(char_pairs(fs@).take(fs.len() as int) =~= char_pairs(fs@));
    out
}

/// The value of the last field with key `k`.
fn lookup_field(fs: &Vec<(Vec<char>, Vec<char>)>, k: &str) -> (r: Option<Vec<char>>)
    ensures
        opt_chars(r) == lookup(char_pairs(fs@), k@),
{
    let kc = chars_of(k);
    let mut i: usize = fs.len();
    assert(char_pairs(fs@).take(fs.len() as int) =~= char_pairs(fs@));
    while i > 0
        invariant
            i <= fs.len(),
            kc@ == k@,
            lookup(char_pairs(fs@), k@) == lookup(char_pairs(fs@).take(i as int), k@),
        decreases i,
    {
        let ghost pre = char_pairs(fs@).take(i as int);
        assert(pre.drop_last() =~= char_pairs(fs@).take(i - 1));
        if chars_eq(fs[i - 1].0.as_slice(), kc.as_slice()) {
            return Some(copy_range(fs[i - 1].1.as_slice(), 0, fs[i - 1].1.len()));
        }
        i = i - 1;
    }
    None
}

/// A field's value as a string, or the given default.
fn field_or(fs: &Vec<(Vec<char>, Vec<char>)>, k: &str, default: &str) -> (r: String)
    ensures
        r@ == or_default(lookup(char_pairs(fs@), k@), default@),
{
    match lookup_field(fs, k) {
        Some(v) => string_of(v.as_slice()),
        None => String::from_str(default),
    }
}

/// The non-empty trimmed comma-separated items of a `Depends` value.
pub fn depends_items(v: &[char]) -> (r: Vec<String>)
    ensures
        string_views(r@) == depends_list(v@),
{
    let parts = split_chars(v, ',');
    let ghost trimmed = views(parts@).map_values(|d: Seq<char>| trim(d));
    let mut out: Vec<String> = Vec::new();
    let mut i: usize = 0;
    while i < parts.len()
        invariant
            i <= parts.len(),
            views(parts@) == split(v@, ','),
            trimmed == views(parts@).map_values(|d: Seq<char>| trim(d)),
            string_views(out@) == drop_empty(trimmed.take(i as int)),
        decreases parts.len() - i,
    {
        assert(trimmed.take(i + 1).drop_last() =~= trimmed.take(i as int));
        let t = trim_chars(parts[i].as_slice());
        if t.len() > 0 {
            out.push(string_of(t.as_slice()));
        }
        i = i + 1;
        assert(string_views(out@) =~= drop_empty(trimmed.take(i as int)));
    }
    assert(trimmed.take(parts.len() as int) =~= trimmed);
    out
}

/// The package description given by the fields.
fn deb_info_of(fs: &Vec<(Vec<char>, Vec<char>)>) -> (r: DebInfo)
    ensures
        describes(r, char_pairs(fs@)),
{
    let name = field_or(fs, "package", "unknown");
    let version = field_or(fs, "version", "unknown");
    let architecture = field_or(fs, "architecture", "unknown");
    let description = field_or(fs, "description", "");
    let maintainer = field_or(fs, "maintainer", "");
    let section = match lookup_field(fs, "section") {
        Some(v) => Some(string_of(v.as_slice())),
        None => None,
    };
    let installed_size_kb = match lookup_field(fs, "installed-size") {
        Some(v) => match parse_u64_chars(v.as_slice()) {
            Some(n) => n,
            None => 0,
        },
        None => 0,
    };
    let depends = match lookup_field(fs, "depends") {
        Some(v) => depends_items(v.as_slice()),
        None => Vec::new(),
    };
    proof {
        reveal_strlit("");
        assert(""@ =~= Seq::<char>::empty());
    }
    assert(string_views(depends@) == match lookup(char_pairs(fs@), "depends"@) {
        Some(v) => depends_list(v),
        None => Seq::<Seq<char>>::empty(),
    });
    DebInfo {
        name,
        version,
        architecture,
        description,
        installed_size_kb,
        depends,
        maintainer,
        section,
    }
}

/// The package description given by control fields whose keys are already
/// lowercased.
pub fn deb_info_from_fields(fields: &Vec<(String, String)>) -> (r: DebInfo)
    ensures
        describes(r, string_pairs(fields@)),
{
    let mut fs: Vec<(Vec<char>, Vec<char>)> = Vec::new();
    let mut i: usize = 0;
    while i < fields.len()
        invariant
            i <= fields.len(),
            char_pairs(fs@) == string_pairs(fields@).take(i as int),
        decreases fields.len() - i,
    {
        let k = chars_of(fields[i].0.as_str());
        let v = chars_of(fields[i].1.as_str());
        let ghost prev = fs@;
        fs.push((k, v));
        assert(char_pairs(fs@) =~= char_pairs(prev).push(string_pairs(fields@)[i as int]));
        i = i + 1;
        assert(char_pairs(fs@) =~= string_pairs(fields@).take(i as int));
    }
    assert(string_pairs(fields@).take(fields.len() as int) =~= string_pairs(fields@));
    deb_info_of(&fs)
}

/// Parses the output of `dpkg-deb --info` into package metadata.
///
/// Every line is read with the one leading space that `dpkg-deb` adds
/// removed; `Key: value` lines start a field, indented lines (and lone `.`
/// lines) continue the current one, other lines are ignored. Keys are
/// matched case-insensitively; a key given twice keeps its last value.
/// The text is always accepted: missing fields get defaults.
pub fn parse_control_fields(text: &str) -> (r: Result<DebInfo, String>)
    ensures
        r matches Ok(info) && describes(info, lowercase_keys(control_fields(text@))),
        ascii_keys_lowered(control_fields(text@)),
{
    let cs = chars_of(text);
    let fs = fields_of(cs.as_slice());
    let mut lowered: Vec<(Vec<char>, Vec<char>)> = Vec::new();
    let mut i: usize = 0;
    while i < fs.len()
        invariant
            i <= fs.len(),
            char_pairs(fs@) == control_fields(text@),
            char_pairs(lowered@) == lowercase_keys(char_pairs(fs@).take(i as int)),
            ascii_keys_lowered(char_pairs(fs@).take(i as int)),
        decreases fs.len() - i,
    {
        let key = string_of(fs[i].0.as_slice());
        let lower = to_lowercase(key.as_str());
        let lk = chars_of(lower.as_str());
        let v = copy_range(fs[i].1.as_slice(), 0, fs[i].1.len());
        let ghost prev = lowered@;
        lowered.push((lk, v));
        assert(fs[i as int].1@.subrange(0, fs[i as int].1@.len() as int) =~= fs[i as int].1@);
        assert(char_pairs(lowered@) =~= char_pairs(prev).push(
            (lowercase(char_pairs(fs@)[i as int].0), char_pairs(fs@)[i as int].1),
        ));
        let ghost seen = char_pairs(fs@).take(i as int);
        i = i + 1;
        assert(char_pairs(lowered@) =~= lowercase_keys(char_pairs(fs@).take(i as int)));
        assert forall|j: int|
            0 <= j < i && all_ascii(#[trigger] char_pairs(fs@).take(i as int)[j].0) implies lowercase(
            char_pairs(fs@).take(i as int)[j].0,
        ) == ascii_lower(char_pairs(fs@).take(i as int)[j].0) by {
            if j < i - 1 {
                assert(char_pairs(fs@).take(i as int)[j] == seen[j]);
            }
        }
    }
    assert(char_pairs(fs@).take(fs.len() as int) =~= char_pairs(fs@));
    Ok(deb_info_of(&lowered))
}

/// The message given when `dpkg-deb --info` fails: its error output,
/// decoded lossily, after a fixed prefix.
pub open spec fn info_failure_message(stderr: Seq<u8>) -> Seq<char> {
    "dpkg-deb --info failed: "@ + lossy_text(stderr)
}

/// Package metadata from what `dpkg-deb --info` gave: its exit status and
/// its standard output and error, as bytes. A failed run is an error whose
/// message holds the error output; otherwise the output, decoded lossily
/// as UTF-8, is parsed by `parse_control_fields`.
pub fn deb_info_from_output(success: bool, stdout: &[u8], stderr: &[u8]) -> (r: Result<
    DebInfo,
    String,
>)
    ensures
        success ==> (r matches Ok(info) && describes(
            info,
            lowercase_keys(control_fields(lossy_text(stdout@))),
        )),
        success ==> ascii_keys_lowered(control_fields(lossy_text(stdout@))),
        !success ==> (r matches Err(m) && m@ == info_failure_message(stderr@)),
{
    if !success {
        let prefix = "dpkg-deb --info failed: ";
        let mut msg = chars_of(prefix);
        let detail = decode_lossy(stderr);
        let dc = chars_of(detail.as_str());
        let mut i: usize = 0;
        while i < dc.len()
            invariant
                i <= dc.len(),
                msg@ == prefix@ + dc@.take(i as int),
            decreases dc.len() - i,
        {
            msg.push(dc[i]);
            i = i + 1;
            assert(msg@ =~= prefix@ + dc@.take(i as int));
        }
        assert(dc@.take(dc.len() as int) =~= dc@);
        return Err(string_of(msg.as_slice()));
    }
    let text = decode_lossy(stdout);
    parse_control_fields(text.as_str())
}

} // verus!
