//! Which language a text is written in, and when two names designate the same language.

use vstd::prelude::*;

use crate::text::{chars_of, is_blank, lower_ascii, lower_ascii_char, lower_char, trim, trim_range};

verus! {

/// The families of characters that betray a language.
pub enum Mark {
    Han,
    Kana,
    Hangul,
    Arabic,
    Cyrillic,
    Portuguese,
    German,
    French,
    Spanish,
    Italian,
}

/// `c` belongs to the family `m`: a Unicode block for the scripts, a handful of
/// accented letters for the languages written in Latin letters.
pub open spec fn has_mark(c: char, m: Mark) -> bool {
    match m {
        Mark::Han => ('\u{4e00}' <= c && c <= '\u{9fff}') || ('\u{3400}' <= c && c <= '\u{4dbf}'),
        Mark::Kana => ('\u{3040}' <= c && c <= '\u{309f}') || ('\u{30a0}' <= c && c <= '\u{30ff}'),
        Mark::Hangul => '\u{ac00}' <= c && c <= '\u{d7af}',
        Mark::Arabic => '\u{0600}' <= c && c <= '\u{06ff}',
        Mark::Cyrillic => '\u{0400}' <= c && c <= '\u{04ff}',
        Mark::Portuguese => c == 'ã' || c == 'õ',
        Mark::German => c == 'ä' || c == 'ö' || c == 'ü' || c == 'Ä' || c == 'Ö' || c == 'Ü',
        Mark::French => c == 'à' || c == 'è' || c == 'é' || c == 'ê' || c == 'ë' || c == 'ç'
            || c == 'ô' || c == 'û',
        Mark::Spanish => c == 'ñ' || c == '¿' || c == '¡',
        Mark::Italian => c == 'ì' || c == 'ò' || c == 'ù',
    }
}

/// Some character of the text carries the mark `m`.
pub open spec fn text_has(t: Seq<char>, m: Mark) -> bool {
    exists|i: int| 0 <= i < t.len() && #[trigger] has_mark(t[i], m)
}

/// The language of a text: the first family, in this order, of which the text holds a
/// character decides; a text with none of them is taken for English.
pub open spec fn language_of(t: Seq<char>) -> Seq<char> {
    if text_has(t, Mark::Han) {
        "zh"@
    } else if text_has(t, Mark::Kana) {
        "ja"@
    } else if text_has(t, Mark::Hangul) {
        "ko"@
    } else if text_has(t, Mark::Arabic) {
        "ar"@
    } else if text_has(t, Mark::Cyrillic) {
        "ru"@
    } else if text_has(t, Mark::Portuguese) {
        "pt"@
    } else if text_has(t, Mark::German) {
        "de"@
    } else if text_has(t, Mark::French) {
        "fr"@
    } else if text_has(t, Mark::Spanish) {
        "es"@
    } else if text_has(t, Mark::Italian) {
        "it"@
    } else {
        "en"@
    }
}

fn char_has_mark(c: char, m: &Mark) -> (r: bool)
    ensures
        r == has_mark(c, *m),
{
    match m {
        Mark::Han => ('\u{4e00}' <= c && c <= '\u{9fff}') || ('\u{3400}' <= c && c <= '\u{4dbf}'),
        Mark::Kana => ('\u{3040}' <= c && c <= '\u{309f}') || ('\u{30a0}' <= c && c <= '\u{30ff}'),
        Mark::Hangul => '\u{ac00}' <= c && c <= '\u{d7af}',
        Mark::Arabic => '\u{0600}' <= c && c <= '\u{06ff}',
        Mark::Cyrillic => '\u{0400}' <= c && c <= '\u{04ff}',
        Mark::Portuguese => c == 'ã' || c == 'õ',
        Mark::German => c == 'ä' || c == 'ö' || c == 'ü' || c == 'Ä' || c == 'Ö' || c == 'Ü',
        Mark::French => c == 'à' || c == 'è' || c == 'é' || c == 'ê' || c == 'ë' || c == 'ç'
            || c == 'ô' || c == 'û',
        Mark::Spanish => c == 'ñ' || c == '¿' || c == '¡',
        Mark::Italian => c == 'ì' || c == 'ò' || c == 'ù',
    }
}

fn chars_have(v: &Vec<char>, m: Mark) -> (r: bool)
    ensures
        r == text_has(v@, m),
{
    let mut i: usize = 0;
    while i < v.len()
        invariant
            i <= v.len(),
            forall|k: int| 0 <= k < i ==> !#[trigger] has_mark(v@[k], m),
        decreases v.len() - i,
    {
        if char_has_mark(v[i], &m) {
            return true;
        }
        i = i + 1;
    }
    false
}

/// The language of the text, by the marks of its characters (see `language_of`).
pub fn detect_language(text: &str) -> (r: &'static str)
    ensures
        r@ == language_of(text@),
{
    let v = chars_of(text);
    if chars_have(&v, Mark::Han) {
        "zh"
    } else if chars_have(&v, Mark::Kana) {
        "ja"
    } else if chars_have(&v, Mark::Hangul) {
        "ko"
    } else if chars_have(&v, Mark::Arabic) {
        "ar"
    } else if chars_have(&v, Mark::Cyrillic) {
        "ru"
    } else if chars_have(&v, Mark::Portuguese) {
        "pt"
    } else if chars_have(&v, Mark::German) {
        "de"
    } else if chars_have(&v, Mark::French) {
        "fr"
    } else if chars_have(&v, Mark::Spanish) {
        "es"
    } else if chars_have(&v, Mark::Italian) {
        "it"
    } else {
        "en"
    }
}


/// What two designations of a language are compared on: the first two characters of the
/// trimmed designation, ASCII capitals made small (fewer where the designation is shorter).
pub open spec fn language_key(s: Seq<char>) -> Seq<char> {
    let l = lower_ascii(trim(s));
    if l.len() < 2 {
        l
    } else {
        l.take(2)
    }
}

/// Two designations of the same language: the first is not blank, and both have the same key.
pub open spec fn same_language(a: Seq<char>, b: Seq<char>) -> bool {
    !is_blank(a) && language_key(a) == language_key(b)
}

/// The key of `language_key`, computed.
fn key_of(s: &str) -> (r: Vec<char>)
    ensures
        r@ == language_key(s@),
{
    let v = chars_of(s);
    let (a, b) = trim_range(&v, 0, v.len());
    proof {
        assert(v@.subrange(0, v@.len() as int) =~= v@);
    }
    let mut r: Vec<char> = Vec::new();
    let mut k = a;
    while k < b && k - a < 2
        invariant
            a <= k <= b <= v.len(),
            k - a <= 2,
            r@ == lower_ascii(v@.subrange(a as int, b as int)).take(k - a),
        decreases b - k,
    {
        r.push(lower_char(v[k]));
        k = k + 1;
    }
    proof {
        let l = lower_ascii(v@.subrange(a as int, b as int));
        if l.len() < 2 {
            assert(l.take(k - a) =~= l);
        }
    }
    r
}

/// Do `a` and `b` designate the same language? They are compared on their first two
/// letters, so that an ISO code and its three-letter form meet; a blank `a` never matches.
pub fn meme_langue(a: &str, b: &str) -> (r: bool)
    ensures
        r == same_language(a@, b@),
{
    let ka = key_of(a);
    if ka.len() == 0 {
        return false;
    }
    let kb = key_of(b);
    if ka.len() != kb.len() {
        return false;
    }
    let mut i: usize = 0;
    while i < ka.len()
        invariant
            ka@ == language_key(a@),
            kb@ == language_key(b@),
            !is_blank(a@),
            ka.len() == kb.len(),
            i <= ka.len(),
            forall|k: int| 0 <= k < i ==> ka@[k] == kb@[k],
        decreases ka.len() - i,
    {
        if ka[i] != kb[i] {
            assert(ka@[i as int] != kb@[i as int]);
            return false;
        }
        i = i + 1;
    }
    proof {
        assert(ka@ =~= kb@);
    }
    true
}


/// The key of a designation is empty exactly when the designation is blank.
proof fn lemma_key_empty(s: Seq<char>)
    ensures
        (language_key(s).len() == 0) == is_blank(s),
{
    assert(lower_ascii(trim(s)).len() == trim(s).len());
}

/// Designating the same language goes both ways.
pub proof fn law_same_language_symmetric(a: Seq<char>, b: Seq<char>)
    ensures
        same_language(a, b) == same_language(b, a),
{
    lemma_key_empty(a);
    lemma_key_empty(b);
}

/// Every designation that is not blank designates its own language; a blank one none.
pub proof fn law_same_language_reflexive(a: Seq<char>)
    ensures
        same_language(a, a) == !is_blank(a),
{
}

/// A text written in ASCII alone is taken for English.
pub proof fn law_ascii_text_is_english(t: Seq<char>)
    requires
        forall|i: int| 0 <= i < t.len() ==> (t[i] as u32) < 128,
    ensures
        language_of(t) == "en"@,
{
    assert forall|i: int, m: Mark| 0 <= i < t.len() implies !#[trigger] has_mark(t[i], m) by {
        assert((t[i] as u32) < 128);
    }
}

/// The language found is one of the eleven that the marks name.
pub proof fn law_language_is_known(t: Seq<char>)
    ensures
        language_of(t) == "zh"@ || language_of(t) == "ja"@ || language_of(t) == "ko"@
            || language_of(t) == "ar"@ || language_of(t) == "ru"@ || language_of(t) == "pt"@
            || language_of(t) == "de"@ || language_of(t) == "fr"@ || language_of(t) == "es"@
            || language_of(t) == "it"@ || language_of(t) == "en"@,
{
}

/// A text that holds a Han ideograph (U+4E00–U+9FFF or U+3400–U+4DBF) is taken for Chinese.
pub proof fn law_zh_mark(t: Seq<char>, i: int)
    requires
        0 <= i < t.len(),
        ('\u{4e00}' <= t[i] && t[i] <= '\u{9fff}') || ('\u{3400}' <= t[i] && t[i] <= '\u{4dbf}'),
    ensures
        language_of(t) == "zh"@,
{
    assert(has_mark(t[i], Mark::Han));
}

/// A text that holds no character of the families that come before it, and a kana (U+3040–U+309F or U+30A0–U+30FF) is taken for Japanese.
pub proof fn law_ja_mark(t: Seq<char>, i: int)
    requires
        0 <= i < t.len(),
        ('\u{3040}' <= t[i] && t[i] <= '\u{309f}') || ('\u{30a0}' <= t[i] && t[i] <= '\u{30ff}'),
        forall|j: int| #![trigger t[j]] 0 <= j < t.len() ==> !has_mark(t[j], Mark::Han),
    ensures
        language_of(t) == "ja"@,
{
    assert(has_mark(t[i], Mark::Kana));
}

/// A text that holds no character of the families that come before it, and a Hangul syllable (U+AC00–U+D7AF) is taken for Korean.
pub proof fn law_ko_mark(t: Seq<char>, i: int)
    requires
        0 <= i < t.len(),
        '\u{ac00}' <= t[i] && t[i] <= '\u{d7af}',
        forall|j: int| #![trigger t[j]] 0 <= j < t.len() ==> !has_mark(t[j], Mark::Han) && !has_mark(t[j], Mark::Kana),
    ensures
        language_of(t) == "ko"@,
{
    assert(has_mark(t[i], Mark::Hangul));
}

/// A text that holds no character of the families that come before it, and an Arabic letter (U+0600–U+06FF) is taken for Arabic.
pub proof fn law_ar_mark(t: Seq<char>, i: int)
    requires
        0 <= i < t.len(),
        '\u{0600}' <= t[i] && t[i] <= '\u{06ff}',
        forall|j: int| #![trigger t[j]] 0 <= j < t.len() ==> !has_mark(t[j], Mark::Han) && !has_mark(t[j], Mark::Kana) && !has_mark(t[j], Mark::Hangul),
    ensures
        language_of(t) == "ar"@,
{
    assert(has_mark(t[i], Mark::Arabic));
}

/// A text that holds no character of the families that come before it, and a Cyrillic letter (U+0400–U+04FF) is taken for Russian.
pub proof fn law_ru_mark(t: Seq<char>, i: int)
    requires
        0 <= i < t.len(),
        '\u{0400}' <= t[i] && t[i] <= '\u{04ff}',
        forall|j: int| #![trigger t[j]] 0 <= j < t.len() ==> !has_mark(t[j], Mark::Han) && !has_mark(t[j], Mark::Kana) && !has_mark(t[j], Mark::Hangul) && !has_mark(t[j], Mark::Arabic),
    ensures
        language_of(t) == "ru"@,
{
    assert(has_mark(t[i], Mark::Cyrillic));
}

/// A text that holds no character of the families that come before it, and one of ã, õ is taken for Portuguese.
pub proof fn law_pt_mark(t: Seq<char>, i: int)
    requires
        0 <= i < t.len(),
        t[i] == 'ã' || t[i] == 'õ',
        forall|j: int| #![trigger t[j]] 0 <= j < t.len() ==> !has_mark(t[j], Mark::Han) && !has_mark(t[j], Mark::Kana) && !has_mark(t[j], Mark::Hangul) && !has_mark(t[j], Mark::Arabic) && !has_mark(t[j], Mark::Cyrillic),
    ensures
        language_of(t) == "pt"@,
{
    assert(has_mark(t[i], Mark::Portuguese));
}

/// A text that holds no character of the families that come before it, and one of ä, ö, ü, Ä, Ö, Ü is taken for German.
pub proof fn law_de_mark(t: Seq<char>, i: int)
    requires
        0 <= i < t.len(),
        t[i] == 'ä' || t[i] == 'ö' || t[i] == 'ü' || t[i] == 'Ä' || t[i] == 'Ö' || t[i] == 'Ü',
        forall|j: int| #![trigger t[j]] 0 <= j < t.len() ==> !has_mark(t[j], Mark::Han) && !has_mark(t[j], Mark::Kana) && !has_mark(t[j], Mark::Hangul) && !has_mark(t[j], Mark::Arabic) && !has_mark(t[j], Mark::Cyrillic) && !has_mark(t[j], Mark::Portuguese),
    ensures
        language_of(t) == "de"@,
{
    assert(has_mark(t[i], Mark::German));
}

/// A text that holds no character of the families that come before it, and one of à, è, é, ê, ë, ç, ô, û is taken for French.
pub proof fn law_fr_mark(t: Seq<char>, i: int)
    requires
        0 <= i < t.len(),
        t[i] == 'à' || t[i] == 'è' || t[i] == 'é' || t[i] == 'ê' || t[i] == 'ë' || t[i] == 'ç' || t[i] == 'ô' || t[i] == 'û',
        forall|j: int| #![trigger t[j]] 0 <= j < t.len() ==> !has_mark(t[j], Mark::Han) && !has_mark(t[j], Mark::Kana) && !has_mark(t[j], Mark::Hangul) && !has_mark(t[j], Mark::Arabic) && !has_mark(t[j], Mark::Cyrillic) && !has_mark(t[j], Mark::Portuguese) && !has_mark(t[j], Mark::German),
    ensures
        language_of(t) == "fr"@,
{
    assert(has_mark(t[i], Mark::French));
}

/// A text that holds no character of the families that come before it, and one of ñ, ¿, ¡ is taken for Spanish.
pub proof fn law_es_mark(t: Seq<char>, i: int)
    requires
        0 <= i < t.len(),
        t[i] == 'ñ' || t[i] == '¿' || t[i] == '¡',
        forall|j: int| #![trigger t[j]] 0 <= j < t.len() ==> !has_mark(t[j], Mark::Han) && !has_mark(t[j], Mark::Kana) && !has_mark(t[j], Mark::Hangul) && !has_mark(t[j], Mark::Arabic) && !has_mark(t[j], Mark::Cyrillic) && !has_mark(t[j], Mark::Portuguese) && !has_mark(t[j], Mark::German) && !has_mark(t[j], Mark::French),
    ensures
        language_of(t) == "es"@,
{
    assert(has_mark(t[i], Mark::Spanish));
}

/// A text that holds no character of the families that come before it, and one of ì, ò, ù is taken for Italian.
pub proof fn law_it_mark(t: Seq<char>, i: int)
    requires
        0 <= i < t.len(),
        t[i] == 'ì' || t[i] == 'ò' || t[i] == 'ù',
        forall|j: int| #![trigger t[j]] 0 <= j < t.len() ==> !has_mark(t[j], Mark::Han) && !has_mark(t[j], Mark::Kana) && !has_mark(t[j], Mark::Hangul) && !has_mark(t[j], Mark::Arabic) && !has_mark(t[j], Mark::Cyrillic) && !has_mark(t[j], Mark::Portuguese) && !has_mark(t[j], Mark::German) && !has_mark(t[j], Mark::French) && !has_mark(t[j], Mark::Spanish),
    ensures
        language_of(t) == "it"@,
{
    assert(has_mark(t[i], Mark::Italian));
}

/// Two designations name the same language exactly when the first is not blank and their
/// first two characters, once trimmed and with ASCII capitals made small, are the same (both
/// having as many of them, where one has fewer than two); what follows never counts.
pub proof fn law_same_language_two_letters(a: Seq<char>, b: Seq<char>)
    ensures
        same_language(a, b) == ({
            let ta = trim(a);
            let tb = trim(b);
            let na = if ta.len() < 2 {
                ta.len() as int
            } else {
                2
            };
            let nb = if tb.len() < 2 {
                tb.len() as int
            } else {
                2
            };
            &&& ta.len() > 0
            &&& na == nb
            &&& forall|i: int| 0 <= i < na ==> lower_ascii_char(ta[i]) == lower_ascii_char(tb[i])
        }),
{
    let ta = trim(a);
    let tb = trim(b);
    let ka = language_key(a);
    let kb = language_key(b);
    assert(lower_ascii(ta).len() == ta.len());
    assert(lower_ascii(tb).len() == tb.len());
    let na = if ta.len() < 2 {
        ta.len() as int
    } else {
        2
    };
    let nb = if tb.len() < 2 {
        tb.len() as int
    } else {
        2
    };
    assert(ka.len() == na);
    assert(kb.len() == nb);
    assert forall|i: int| 0 <= i < na implies ka[i] == lower_ascii_char(ta[i]) by {}
    assert forall|i: int| 0 <= i < nb implies kb[i] == lower_ascii_char(tb[i]) by {}
    if na == nb && (forall|i: int| 0 <= i < na ==> lower_ascii_char(ta[i]) == lower_ascii_char(
        tb[i],
    )) {
        assert(ka =~= kb);
    }
    if ka == kb {
        assert forall|i: int| 0 <= i < na implies lower_ascii_char(ta[i]) == lower_ascii_char(
            tb[i],
        ) by {
            assert(ka[i] == kb[i]);
        }
    }
    lemma_key_empty(a);
}

/// Small letters are made of the ASCII capitals A to Z, each to its own letter; every other
/// character is kept.
pub proof fn law_lowercase_letters(c: char)
    ensures
        'A' <= c && c <= 'Z' ==> (lower_ascii_char(c) as u32) == (c as u32) + 32 && 'a'
            <= lower_ascii_char(c) && lower_ascii_char(c) <= 'z',
        !('A' <= c && c <= 'Z') ==> lower_ascii_char(c) == c,
{
}

} // verus!
