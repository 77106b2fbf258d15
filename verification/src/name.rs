//! Names of events and fields as identifiers that are safe in a statement.

use crate::keywords::{is_keyword, keyword, lemma_keyword_shape};
use crate::text::push_char;
use vstd::prelude::*;
use vstd::string::StringExecFns;

verus! {

/// An ASCII letter.
pub open spec fn is_letter(c: char) -> bool {
    ('a' <= c && c <= 'z') || ('A' <= c && c <= 'Z')
}

/// A character that may stand in an identifier: an ASCII letter, an ASCII
/// digit or an underscore.
pub open spec fn is_name_char(c: char) -> bool {
    is_letter(c) || ('0' <= c && c <= '9') || c == '_'
}

/// The lower-case form of an ASCII letter; any other character is unchanged.
pub open spec fn lower(c: char) -> char {
    if 'A' <= c && c <= 'Z' {
        ((c as u8) + 32) as char
    } else {
        c
    }
}

/// `text` with each ASCII letter in lower case.
pub open spec fn lowercase(text: Seq<char>) -> Seq<char> {
    Seq::new(text.len(), |i: int| lower(text[i]))
}

/// The characters of `name` that may stand in an identifier, in their order.
pub open spec fn kept(name: Seq<char>) -> Seq<char> {
    name.filter(|c: char| is_name_char(c))
}

/// `kept`, with an underscore in front unless it begins with a letter.
pub open spec fn prefixed(kept: Seq<char>) -> Seq<char> {
    if kept.len() == 0 || !is_letter(kept[0]) {
        seq!['_'] + kept
    } else {
        kept
    }
}

/// The identifier that stands for `name`.
///
/// Characters other than ASCII letters, digits and underscores are dropped.
/// An underscore is put in front of what is left unless it begins with a
/// letter, and one is put behind it if it is, but for case, a keyword.
pub open spec fn sanitized(name: Seq<char>) -> Seq<char> {
    let identifier = prefixed(kept(name));
    if is_keyword(lowercase(identifier)) {
        identifier.push('_')
    } else {
        identifier
    }
}

/// A non-empty text of identifier characters that does not begin with a digit.
pub open spec fn is_identifier(text: Seq<char>) -> bool {
    &&& text.len() > 0
    &&& is_letter(text[0]) || text[0] == '_'
    &&& forall|i: int| 0 <= i < text.len() ==> is_name_char(#[trigger] text[i])
}

fn letter(c: char) -> (r: bool)
    ensures
        r == is_letter(c),
{
    ('a' <= c && c <= 'z') || ('A' <= c && c <= 'Z')
}

fn name_char(c: char) -> (r: bool)
    ensures
        r == is_name_char(c),
{
    letter(c) || ('0' <= c && c <= '9') || c == '_'
}

fn to_lower(c: char) -> (r: char)
    ensures
        r == lower(c),
{
    if 'A' <= c && c <= 'Z' {
        ((c as u8) + 32) as char
    } else {
        c
    }
}

fn keep_name_chars(name: &str) -> (text: String)
    ensures
        text@ == kept(name@),
{
    let mut text = String::new();
    proof {
        reveal(Seq::filter);
        assert(name@.take(0) =~= Seq::<char>::empty());
    }
    for c in it: name.chars()
        invariant
            it.seq() == name@,
            text@ == kept(name@.take(it.index() as int)),
    {
        proof {
            reveal(Seq::filter);
            let next = name@.take(it.index() + 1);
            assert(next.drop_last() =~= name@.take(it.index() as int));
            assert(next.last() == c);
        }
        if name_char(c) {
            push_char(&mut text, c);
        }
    }
    proof {
        assert(name@.take(name@.len() as int) =~= name@);
    }
    text
}

fn to_lowercase(text: &str) -> (low: String)
    ensures
        low@ == lowercase(text@),
{
    let mut low = String::new();
    for c in it: text.chars()
        invariant
            it.seq() == text@,
            low@ == lowercase(text@.take(it.index() as int)),
    {
        push_char(&mut low, to_lower(c));
        proof {
            assert(low@ =~= lowercase(text@.take(it.index() + 1)));
        }
    }
    proof {
        assert(text@.take(text@.len() as int) =~= text@);
    }
    low
}

fn first_char(text: &str) -> (first: Option<char>)
    ensures
        text@.len() == 0 ==> first is None,
        text@.len() > 0 ==> first == Some(text@[0]),
{
    let mut chars = text.chars();
    chars.next()
}

/// Turns `name` into an identifier that is safe in a statement.
pub fn sanitize_name(name: &str) -> (identifier: String)
    ensures
        identifier@ == sanitized(name@),
{
    let kept = keep_name_chars(name);
    let bare = match first_char(kept.as_str()) {
        None => true,
        Some(c) => !letter(c),
    };
    let mut identifier = if bare {
        proof {
            reveal_strlit("_");
        }
        let mut text = String::from_str("_");
        text.append(kept.as_str());
        assert(text@ =~= seq!['_'] + kept@);
        text
    } else {
        kept
    };
    let low = to_lowercase(identifier.as_str());
    if keyword(low.as_str()) {
        push_char(&mut identifier, '_');
    }
    identifier
}

/// Whatever the name, its identifier is an identifier, and is no keyword in
/// any case of its letters.
pub proof fn lemma_sanitized_is_identifier(name: Seq<char>)
    ensures
        is_identifier(sanitized(name)),
        !is_keyword(lowercase(sanitized(name))),
{
    let kept = kept(name);
    let identifier = prefixed(kept);
    assert forall|i: int| 0 <= i < kept.len() implies is_name_char(#[trigger] kept[i]) by {
        let pred = |c: char| is_name_char(c);
        name.lemma_filter_pred(pred, i);
    }
    assert(is_identifier(identifier));
    if is_keyword(lowercase(identifier)) {
        let marked = identifier.push('_');
        assert(lowercase(marked).last() == '_');
        if is_keyword(lowercase(marked)) {
            lemma_keyword_shape(lowercase(marked));
        }
    }
}

/// Where the identifier of a name is, but for case, a keyword with an
/// underscore behind it, it begins with a letter.
pub proof fn lemma_sanitized_keyword(name: Seq<char>)
    requires
        is_keyword(lowercase(prefixed(kept(name)))),
    ensures
        sanitized(name) == prefixed(kept(name)).push('_'),
        prefixed(kept(name)) == kept(name),
        is_letter(sanitized(name)[0]),
{
    let kept = kept(name);
    let low = lowercase(prefixed(kept));
    lemma_keyword_shape(low);
    assert(low[0] == lower(prefixed(kept)[0]));
}

} // verus!
