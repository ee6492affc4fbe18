//! The closed set of recognized translation-function names, and the two
//! language codes each name implies for the positional shorthand form.

use vstd::prelude::*;

verus! {

/// Relies on `str`'s `PartialEq`: two string slices are equal exactly when
/// their character sequences are.
#[verifier::external_body]
pub(crate) fn str_eq(a: &str, b: &str) -> (r: bool)
    ensures
        r == (a@ == b@),
{
    a == b
}

/// Whether `name` is one of the recognized translation-function names.
pub open spec fn recognized(name: Seq<char>) -> bool {
    ||| name == "it"@
    ||| name == "it_ja"@
    ||| name == "it_zh"@
    ||| name == "it_es"@
    ||| name == "it_fr"@
    ||| name == "it_de"@
    ||| name == "en_ja"@
    ||| name == "en_zh"@
    ||| name == "en_es"@
    ||| name == "en_fr"@
    ||| name == "en_de"@
    ||| name == "ja_zh"@
    ||| name == "ja_es"@
    ||| name == "zh_es"@
}

/// The language pair implied by `name` for the shorthand form: the first
/// code keys the first positional argument, the second the second. Unknown
/// names fall back to the base pair; callers are expected to pass a
/// recognized name.
pub open spec fn pair_of(name: Seq<char>) -> (Seq<char>, Seq<char>) {
    if name == "it"@ {
        ("ko"@, "en"@)
    } else if name == "it_ja"@ {
        ("ko"@, "ja"@)
    } else if name == "it_zh"@ {
        ("ko"@, "zh"@)
    } else if name == "it_es"@ {
        ("ko"@, "es"@)
    } else if name == "it_fr"@ {
        ("ko"@, "fr"@)
    } else if name == "it_de"@ {
        ("ko"@, "de"@)
    } else if name == "en_ja"@ {
        ("en"@, "ja"@)
    } else if name == "en_zh"@ {
        ("en"@, "zh"@)
    } else if name == "en_es"@ {
        ("en"@, "es"@)
    } else if name == "en_fr"@ {
        ("en"@, "fr"@)
    } else if name == "en_de"@ {
        ("en"@, "de"@)
    } else if name == "ja_zh"@ {
        ("ja"@, "zh"@)
    } else if name == "ja_es"@ {
        ("ja"@, "es"@)
    } else if name == "zh_es"@ {
        ("zh"@, "es"@)
    } else {
        ("ko"@, "en"@)
    }
}

/// The two codes implied by a name are always distinct.
pub proof fn lemma_pair_distinct(name: Seq<char>)
    ensures
        pair_of(name).0 != pair_of(name).1,
{
    reveal_strlit("ko");
    reveal_strlit("en");
    reveal_strlit("ja");
    reveal_strlit("zh");
    reveal_strlit("es");
    reveal_strlit("fr");
    reveal_strlit("de");
    assert("ko"@[0] == 'k' && "en"@[0] == 'e' && "ja"@[0] == 'j' && "zh"@[0] == 'z' && "es"@[0]
        == 'e' && "fr"@[0] == 'f' && "de"@[0] == 'd');
    assert("en"@[1] == 'n' && "es"@[1] == 's');
}

/// Whether `name` is a recognized translation-function name.
pub fn is_translation_fn(name: &str) -> (r: bool)
    ensures
        r == recognized(name@),
{
    str_eq(name, "it") || str_eq(name, "it_ja") || str_eq(name, "it_zh") || str_eq(name, "it_es")
        || str_eq(name, "it_fr") || str_eq(name, "it_de") || str_eq(name, "en_ja") || str_eq(
        name,
        "en_zh",
    ) || str_eq(name, "en_es") || str_eq(name, "en_fr") || str_eq(name, "en_de") || str_eq(
        name,
        "ja_zh",
    ) || str_eq(name, "ja_es") || str_eq(name, "zh_es")
}

/// The language pair implied by `name` for the shorthand form.
pub fn get_pair_mapping(func_name: &str) -> (r: (&'static str, &'static str))
    ensures
        r.0@ == pair_of(func_name@).0,
        r.1@ == pair_of(func_name@).1,
{
    if str_eq(func_name, "it") {
        ("ko", "en")
    } else if str_eq(func_name, "it_ja") {
        ("ko", "ja")
    } else if str_eq(func_name, "it_zh") {
        ("ko", "zh")
    } else if str_eq(func_name, "it_es") {
        ("ko", "es")
    } else if str_eq(func_name, "it_fr") {
        ("ko", "fr")
    } else if str_eq(func_name, "it_de") {
        ("ko", "de")
    } else if str_eq(func_name, "en_ja") {
        ("en", "ja")
    } else if str_eq(func_name, "en_zh") {
        ("en", "zh")
    } else if str_eq(func_name, "en_es") {
        ("en", "es")
    } else if str_eq(func_name, "en_fr") {
        ("en", "fr")
    } else if str_eq(func_name, "en_de") {
        ("en", "de")
    } else if str_eq(func_name, "ja_zh") {
        ("ja", "zh")
    } else if str_eq(func_name, "ja_es") {
        ("ja", "es")
    } else if str_eq(func_name, "zh_es") {
        ("zh", "es")
    } else {
        ("ko", "en")
    }
}

} // verus!
