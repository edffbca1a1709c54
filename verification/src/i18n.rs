//! Choice of the interface language from the locale environment variables.
use vstd::prelude::*;

use crate::text::{
    ascii_lower, ascii_lowercase, before, before_char, chars_eq, chars_eq_str, chars_of,
    replace_char, replace_chars, split, split_chars, string_of, views,
};

verus! {

/// The locale environment variables that were set (and valid Unicode).
#[derive(Debug, Clone, PartialEq, Eq)]
pub struct LocaleEnv {
    pub lc_all: Option<String>,
    pub lc_messages: Option<String>,
    pub language: Option<String>,
    pub lang: Option<String>,
}

// ---------------------------------------------------------------------------
// Specification
// ---------------------------------------------------------------------------

/// A locale name in comparable form: encoding (`.UTF-8`) and modifier
/// (`@euro`) removed, `_` written `-`, ASCII lowercase.
pub open spec fn normalize(s: Seq<char>) -> Seq<char> {
    ascii_lower(replace_char(before(before(s, '.'), '@'), '_', '-'))
}

/// The language part of a normalized locale (`zh` of `zh-cn`).
pub open spec fn language_of(norm: Seq<char>) -> Seq<char> {
    before(norm, '-')
}

/// The first index from `i` whose locale normalizes to `norm` (or the length).
pub open spec fn find_exact(avail: Seq<Seq<char>>, norm: Seq<char>, i: int) -> int
    decreases avail.len() - i,
{
    if i < 0 || i >= avail.len() {
        avail.len() as int
    } else if normalize(avail[i]) == norm {
        i
    } else {
        find_exact(avail, norm, i + 1)
    }
}

/// The first index from `i` whose locale has language `lang` (or the length).
pub open spec fn find_language(avail: Seq<Seq<char>>, lang: Seq<char>, i: int) -> int
    decreases avail.len() - i,
{
    if i < 0 || i >= avail.len() {
        avail.len() as int
    } else if language_of(normalize(avail[i])) == lang {
        i
    } else {
        find_language(avail, lang, i + 1)
    }
}

/// The index of the available locale that a candidate selects: the first
/// with the same normalized name, else the first with the same language;
/// none for a candidate that normalizes to nothing or has no language.
pub open spec fn match_index(cand: Seq<char>, avail: Seq<Seq<char>>) -> Option<int> {
    let norm = normalize(cand);
    if norm.len() == 0 {
        None
    } else if find_exact(avail, norm, 0) < avail.len() {
        Some(find_exact(avail, norm, 0))
    } else if language_of(norm).len() == 0 {
        None
    } else if find_language(avail, language_of(norm), 0) < avail.len() {
        Some(find_language(avail, language_of(norm), 0))
    } else {
        None
    }
}

/// The locale selected by the first candidate that selects one.
pub open spec fn first_match(cands: Seq<Seq<char>>, avail: Seq<Seq<char>>) -> Option<int>
    decreases cands.len(),
{
    if cands.len() == 0 {
        None
    } else {
        match match_index(cands[0], avail) {
            Some(i) => Some(i),
            None => first_match(cands.drop_first(), avail),
        }
    }
}

/// The interface locale: the one the first matching candidate selects, else
/// English if available, else the first available locale, else `en`.
pub open spec fn detected(cands: Seq<Seq<char>>, avail: Seq<Seq<char>>) -> Seq<char> {
    match first_match(cands, avail) {
        Some(i) => avail[i],
        None => if find_exact(avail, "en"@, 0) < avail.len() {
            avail[find_exact(avail, "en"@, 0)]
        } else if avail.len() > 0 {
            avail[0]
        } else {
            "en"@
        },
    }
}

pub open spec fn one_if_set(o: Option<String>) -> Seq<Seq<char>> {
    match o {
        Some(v) => seq![v@],
        None => Seq::empty(),
    }
}

/// The candidates in order of precedence: `LC_ALL`, `LC_MESSAGES`, each
/// `:`-separated entry of `LANGUAGE`, `LANG`.
pub open spec fn candidates(env: LocaleEnv) -> Seq<Seq<char>> {
    one_if_set(env.lc_all) + one_if_set(env.lc_messages) + match env.language {
        Some(v) => split(v@, ':'),
        None => Seq::empty(),
    } + one_if_set(env.lang)
}

pub open spec fn str_views(a: Seq<&str>) -> Seq<Seq<char>> {
    a.map_values(|s: &str| s@)
}

pub open spec fn string_list(a: Seq<String>) -> Seq<Seq<char>> {
    a.map_values(|s: String| s@)
}

// ---------------------------------------------------------------------------
// Laws
// ---------------------------------------------------------------------------

/// The order of precedence of the variables: a set `LC_ALL` is the first
/// candidate; a set `LC_MESSAGES` comes first when `LC_ALL` is unset and
/// second after a set `LC_ALL`; a set `LANG` is the last candidate; and
/// every variable that is set gives at least one candidate.
pub proof fn law_candidate_order(env: LocaleEnv)
    ensures
        env.lc_all matches Some(a) ==> candidates(env).len() > 0 && candidates(env)[0] == a@,
        env.lc_all is None ==> (env.lc_messages matches Some(m) ==> candidates(env).len() > 0
            && candidates(env)[0] == m@),
        env.lc_all is Some ==> (env.lc_messages matches Some(m) ==> candidates(env).len() > 1
            && candidates(env)[1] == m@),
        env.lang matches Some(l) ==> candidates(env).len() > 0 && candidates(env).last() == l@,
        env.lc_all is None && env.lc_messages is None && env.language is None ==> candidates(env)
            == (match env.lang {
            Some(l) => seq![l@],
            None => Seq::<Seq<char>>::empty(),
        }),
{
    let c = candidates(env);
    let lang_part = match env.language {
        Some(v) => split(v@, ':'),
        None => Seq::empty(),
    };
    assert(c == one_if_set(env.lc_all) + one_if_set(env.lc_messages) + lang_part + one_if_set(
        env.lang,
    ));
    if env.lc_all is Some {
        assert(c[0] == one_if_set(env.lc_all)[0]);
        if env.lc_messages is Some {
            assert(c[1] == one_if_set(env.lc_messages)[0]);
        }
    } else if env.lc_messages is Some {
        assert(c[0] == one_if_set(env.lc_messages)[0]);
    }
    if env.lang is Some {
        assert(c.last() == one_if_set(env.lang)[0]);
    }
    if env.lc_all is None && env.lc_messages is None && env.language is None {
        assert(c =~= one_if_set(env.lang));
    }
}

/// A set `LC_ALL` that selects an available locale decides the interface
/// locale, whatever `LC_MESSAGES`, `LANGUAGE` and `LANG` say.
pub proof fn law_lc_all_decides(env: LocaleEnv, avail: Seq<Seq<char>>)
    requires
        env.lc_all matches Some(a) && match_index(a@, avail) is Some,
    ensures
        detected(candidates(env), avail) == avail[match_index(env.lc_all.unwrap()@, avail).unwrap()],
{
    law_candidate_order(env);
}

/// When `LC_ALL` is unset, a set `LC_MESSAGES` that selects an available
/// locale decides the interface locale, whatever `LANGUAGE` and `LANG` say.
pub proof fn law_lc_messages_decides(env: LocaleEnv, avail: Seq<Seq<char>>)
    requires
        env.lc_all is None,
        env.lc_messages matches Some(m) && match_index(m@, avail) is Some,
    ensures
        detected(candidates(env), avail) == avail[match_index(
            env.lc_messages.unwrap()@,
            avail,
        ).unwrap()],
{
    law_candidate_order(env);
}

proof fn lemma_find_exact_at(avail: Seq<Seq<char>>, norm: Seq<char>, k: int, i: int)
    requires
        0 <= k <= i < avail.len(),
        normalize(avail[i]) == norm,
        forall|j: int| k <= j < i ==> normalize(#[trigger] avail[j]) != norm,
    ensures
        find_exact(avail, norm, k) == i,
    decreases i - k,
{
    if k < i {
        lemma_find_exact_at(avail, norm, k + 1, i);
    }
}

proof fn lemma_find_exact_none(avail: Seq<Seq<char>>, norm: Seq<char>, k: int)
    requires
        0 <= k <= avail.len(),
        forall|j: int| 0 <= j < avail.len() ==> normalize(#[trigger] avail[j]) != norm,
    ensures
        find_exact(avail, norm, k) == avail.len(),
    decreases avail.len() - k,
{
    if k < avail.len() {
        lemma_find_exact_none(avail, norm, k + 1);
    }
}

proof fn lemma_find_language_at(avail: Seq<Seq<char>>, lang: Seq<char>, k: int, i: int)
    requires
        0 <= k <= i < avail.len(),
        before(normalize(avail[i]), '-') == lang,
        forall|j: int| k <= j < i ==> before(normalize(#[trigger] avail[j]), '-') != lang,
    ensures
        find_language(avail, lang, k) == i,
    decreases i - k,
{
    if k < i {
        lemma_find_language_at(avail, lang, k + 1, i);
    }
}

/// A candidate selects the first available locale with the same normalized
/// name (encoding and modifier dropped, `_` as `-`, ASCII lowercase), ahead
/// of any locale that only shares its language.
pub proof fn law_exact_match_first(cand: Seq<char>, avail: Seq<Seq<char>>, i: int)
    requires
        normalize(cand).len() > 0,
        0 <= i < avail.len(),
        normalize(avail[i]) == normalize(cand),
        forall|j: int| 0 <= j < i ==> normalize(#[trigger] avail[j]) != normalize(cand),
    ensures
        match_index(cand, avail) == Some(i),
{
    lemma_find_exact_at(avail, normalize(cand), 0, i);
}

/// When no available locale has the candidate's normalized name, the
/// candidate selects the first available locale with the same language
/// (the part of the normalized name before its first `-`).
pub proof fn law_language_fallback(cand: Seq<char>, avail: Seq<Seq<char>>, i: int)
    requires
        normalize(cand).len() > 0,
        forall|j: int| 0 <= j < avail.len() ==> normalize(#[trigger] avail[j]) != normalize(cand),
        before(normalize(cand), '-').len() > 0,
        0 <= i < avail.len(),
        before(normalize(avail[i]), '-') == before(normalize(cand), '-'),
        forall|j: int|
            0 <= j < i ==> before(normalize(#[trigger] avail[j]), '-') != before(
                normalize(cand),
                '-',
            ),
    ensures
        match_index(cand, avail) == Some(i),
{
    lemma_find_exact_none(avail, normalize(cand), 0);
    lemma_find_language_at(avail, before(normalize(cand), '-'), 0, i);
}

/// The encoding (after a `.`) and the modifier (after a `@`) of a locale
/// name play no part in its normalized form.
pub proof fn law_normalize_drops_suffixes(s: Seq<char>, x: Seq<char>)
    requires
        !s.contains('.'),
        !s.contains('@'),
    ensures
        normalize(s + seq!['.'] + x) == normalize(s),
        normalize(s + seq!['@'] + x) == normalize(s),
{
    lemma_before_prefix(s, x, '.');
    lemma_before_none(s, '.');
    lemma_before_none(s, '@');
    lemma_before_of_at(s, x);
}

proof fn lemma_before_prefix(s: Seq<char>, x: Seq<char>, c: char)
    requires
        !s.contains(c),
    ensures
        before(s + seq![c] + x, c) == s,
{
    let w = s + seq![c] + x;
    crate::text::lemma_first(w, c);
    assert(w[s.len() as int] == c);
    if crate::text::first(w, c) < s.len() {
        assert(s[crate::text::first(w, c)] == c);
    }
    assert(w.take(s.len() as int) =~= s);
}

proof fn lemma_before_none(s: Seq<char>, c: char)
    requires
        !s.contains(c),
    ensures
        before(s, c) == s,
{
    crate::text::lemma_first(s, c);
    if crate::text::first(s, c) < s.len() {
        assert(s[crate::text::first(s, c)] == c);
    }
    assert(s.take(s.len() as int) =~= s);
}

/// `before(s @ x, '.')` keeps the `@`: its `@`-prefix is still `s`.
proof fn lemma_before_of_at(s: Seq<char>, x: Seq<char>)
    requires
        !s.contains('.'),
        !s.contains('@'),
    ensures
        before(before(s + seq!['@'] + x, '.'), '@') == s,
{
    let w = s + seq!['@'] + x;
    let b = before(w, '.');
    crate::text::lemma_first(w, '.');
    let f = crate::text::first(w, '.');
    assert(f > s.len()) by {
        if f <= s.len() {
            if f < s.len() {
                assert(s[f] == '.');
            } else {
                assert(w[s.len() as int] == '@');
            }
        }
    }
    assert(b =~= s + seq!['@'] + x.take(f - s.len() - 1));
    lemma_before_prefix(s, x.take(f - s.len() - 1), '@');
}

// ---------------------------------------------------------------------------
// Outside call
// ---------------------------------------------------------------------------

/// `rust_i18n::set_locale`: makes `locale` the current translation locale.
#[verifier::external_body]
fn apply_locale(locale: &str) {
    rust_i18n::set_locale(locale);
}

// ---------------------------------------------------------------------------
// Implementation
// ---------------------------------------------------------------------------

/// A locale name in comparable form.
pub fn normalize_locale(input: &str) -> (r: String)
    ensures
        r@ == normalize(input@),
{
    let cs = chars_of(input);
    let a = before_char(cs.as_slice(), '.');
    let b = before_char(a.as_slice(), '@');
    let c = replace_chars(b.as_slice(), '_', '-');
    let d = ascii_lowercase(c.as_slice());
    string_of(d.as_slice())
}

fn normalized_chars(s: &str) -> (r: Vec<char>)
    ensures
        r@ == normalize(s@),
{
    let n = normalize_locale(s);
    chars_of(n.as_str())
}

/// The first available locale (from `i`) whose normalized name is `norm`.
fn find_exact_from(available: &[&str], norm: &[char]) -> (r: usize)
    ensures
        r == find_exact(str_views(available@), norm@, 0),
{
    let ghost av = str_views(available@);
    let mut i: usize = 0;
    while i < available.len()
        invariant
            i <= available.len(),
            av == str_views(available@),
            find_exact(av, norm@, 0) == find_exact(av, norm@, i as int),
        decreases available.len() - i,
    {
        let n = normalized_chars(available[i]);
        if chars_eq(n.as_slice(), norm) {
            return i;
        }
        i = i + 1;
    }
    i
}

/// The first available locale whose language is `lang`.
fn find_language_from(available: &[&str], lang: &[char]) -> (r: usize)
    ensures
        r == find_language(str_views(available@), lang@, 0),
{
    let ghost av = str_views(available@);
    let mut i: usize = 0;
    while i < available.len()
        invariant
            i <= available.len(),
            av == str_views(available@),
            find_language(av, lang@, 0) == find_language(av, lang@, i as int),
        decreases available.len() - i,
    {
        let n = normalized_chars(available[i]);
        let l = before_char(n.as_slice(), '-');
        if chars_eq(l.as_slice(), lang) {
            return i;
        }
        i = i + 1;
    }
    i
}

/// The index of the available locale that a candidate selects.
fn match_position(candidate: &str, available: &[&str]) -> (r: Option<usize>)
    ensures
        match r {
            Some(i) => match_index(candidate@, str_views(available@)) == Some(i as int),
            None => match_index(candidate@, str_views(available@)).is_none(),
        },
{
    let norm = normalized_chars(candidate);
    if norm.len() == 0 {
        return None;
    }
    let e = find_exact_from(available, norm.as_slice());
    if e < available.len() {
        return Some(e);
    }
    let lang = before_char(norm.as_slice(), '-');
    if lang.len() == 0 {
        return None;
    }
    let l = find_language_from(available, lang.as_slice());
    if l < available.len() {
        Some(l)
    } else {
        None
    }
}

/// The available locale that a candidate selects: the first with the same
/// normalized name, else the first with the same language.
pub fn match_available_locale<'a>(candidate: &str, available: &'a [&'a str]) -> (r: Option<
    &'a str,
>)
    ensures
        match match_index(candidate@, str_views(available@)) {
            Some(i) => r == Some(available@[i]),
            None => r.is_none(),
        },
{
    match match_position(candidate, available) {
        Some(i) => Some(available[i]),
        None => None,
    }
}

/// The locale selected from the candidates among the available ones.
pub fn detect_locale_inner(candidates: &Vec<String>, available: &[&str]) -> (r: String)
    ensures
        r@ == detected(string_list(candidates@), str_views(available@)),
{
    let ghost cv = string_list(candidates@);
    let ghost av = str_views(available@);
    let mut k: usize = 0;
    assert(cv.skip(0) =~= cv);
    while k < candidates.len()
        invariant
            k <= candidates.len(),
            cv == string_list(candidates@),
            av == str_views(available@),
            first_match(cv, av) == first_match(cv.skip(k as int), av),
        decreases candidates.len() - k,
    {
        assert(cv.skip(k as int)[0] == candidates@[k as int]@);
        assert(cv.skip(k as int).drop_first() =~= cv.skip(k + 1));
        match match_position(candidates[k].as_str(), available) {
            Some(i) => {
                return String::from_str(available[i]);
            },
            None => {},
        }
        k = k + 1;
    }
    let en = chars_of("en");
    let e = find_exact_from(available, en.as_slice());
    if e < available.len() {
        String::from_str(available[e])
    } else if available.len() > 0 {
        String::from_str(available[0])
    } else {
        String::from_str("en")
    }
}

/// The candidate locales in order of precedence.
pub fn locale_candidates(env: &LocaleEnv) -> (r: Vec<String>)
    ensures
        string_list(r@) == candidates(*env),
{
    let mut out: Vec<String> = Vec::new();
    match &env.lc_all {
        Some(v) => out.push(v.clone()),
        None => {},
    }
    match &env.lc_messages {
        Some(v) => out.push(v.clone()),
        None => {},
    }
    let ghost first_two = string_list(out@);
    assert(first_two =~= one_if_set(env.lc_all) + one_if_set(env.lc_messages));
    match &env.language {
        Some(v) => {
            let cs = chars_of(v.as_str());
            let parts = split_chars(cs.as_slice(), ':');
            let mut i: usize = 0;
            while i < parts.len()
                invariant
                    i <= parts.len(),
                    string_list(out@) == first_two + views(parts@).take(i as int),
                decreases parts.len() - i,
            {
                let ghost prev = out@;
                out.push(string_of(parts[i].as_slice()));
                assert(string_list(out@) =~= string_list(prev).push(views(parts@)[i as int]));
                assert(views(parts@).take(i + 1) =~= views(parts@).take(i as int).push(
                    views(parts@)[i as int],
                ));
                i = i + 1;
            }
            assert(views(parts@).take(parts.len() as int) =~= views(parts@));
        },
        None => {},
    }
    let ghost first_three = string_list(out@);
    match &env.lang {
        Some(v) => out.push(v.clone()),
        None => {},
    }
    assert(string_list(out@) =~= first_three + one_if_set(env.lang));
    out
}

/// The interface locale for the given environment and available locales.
pub fn locale(env: &LocaleEnv, available: &[&str]) -> (r: String)
    ensures
        r@ == detected(candidates(*env), str_views(available@)),
{
    let cands = locale_candidates(env);
    detect_locale_inner(&cands, available)
}

/// The interface locale for the given environment and available locales.
pub fn detect_locale(env: &LocaleEnv, available: &[&str]) -> (r: String)
    ensures
        r@ == detected(candidates(*env), str_views(available@)),
{
    locale(env, available)
}

/// Makes the detected locale the current translation locale.
pub fn init_locale(env: &LocaleEnv, available: &[&str]) {
    let l = detect_locale(env, available);
    apply_locale(l.as_str());
}

} // verus!
