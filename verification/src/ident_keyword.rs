//! Identifiers and keywords.
use crate::number::{alphanumeric, is_alphanumeric};
use vstd::prelude::*;

verus! {

/// Whether `c` may continue an identifier: a letter, a digit or `_`.
pub open spec fn is_rest(c: char) -> bool {
    alphanumeric(c) || c == '_'
}

/// Whether `c` may start an identifier: as `is_rest`, but no ASCII digit.
pub open spec fn is_start(c: char) -> bool {
    is_rest(c) && !('0' <= c && c <= '9')
}

/// The reserved words.
pub open spec fn is_keyword(s: Seq<char>) -> bool {
    false
        || s == seq!['_']
        || s == seq!['a', 'l', 'i', 'a', 's']
        || s == seq!['a', 'n', 'd']
        || s == seq!['a', 's']
        || s == seq!['b', 'r', 'e', 'a', 'k']
        || s == seq!['c', 'o', 'n', 't', 'i', 'n', 'u', 'e']
        || s == seq!['e', 'l', 's', 'e']
        || s == seq!['f', 'o', 'r']
        || s == seq!['i', 'f']
        || s == seq!['i', 'm', 'm']
        || s == seq!['i', 'm', 'p', 'l']
        || s == seq!['i', 'n']
        || s == seq!['l', 'e', 'n']
        || s == seq!['l', 'o', 'o', 'p']
        || s == seq!['m', 'a', 't', 'c', 'h']
        || s == seq!['m', 'o', 'd']
        || s == seq!['m', 'u', 't']
        || s == seq!['n', 'e', 'w', 't', 'y', 'p', 'e']
        || s == seq!['n', 'o', 't']
        || s == seq!['o', 'n', 'c', 'e']
        || s == seq!['o', 'r']
        || s == seq!['p', 'u', 'b']
        || s == seq!['r', 'e', 't', 'u', 'r', 'n']
        || s == seq!['s', 'h', 'a', 'r', 'e']
        || s == seq!['t', 'r', 'a', 'i', 't']
        || s == seq!['u', 'n', 'd', 'e', 'f']
        || s == seq!['w', 'h', 'e', 'r', 'e']
        || s == seq!['w', 'h', 'i', 'l', 'e']
}

/// The end of the run of identifier characters from `from`.
pub open spec fn rest_end(s: Seq<char>, from: int) -> int
    decreases s.len() - from,
{
    if 0 <= from < s.len() && is_rest(s[from]) {
        rest_end(s, from + 1)
    } else {
        from
    }
}

/// Why a text does not start with what was asked for.
#[derive(Debug, PartialEq, Eq, Clone, Copy, Structural)]
pub enum IdentError {
    /// No identifier starts here.
    NotAnIdentifier,
    /// The identifier is a reserved word.
    Keyword,
    /// The keyword asked for is not here, or goes on as a longer word.
    NotTheKeyword,
}

/// The identifier or keyword at the start of `s`, as the number of
/// characters it takes.
pub open spec fn word_len(s: Seq<char>) -> Option<nat> {
    if s.len() > 0 && is_start(s[0]) {
        Some(rest_end(s, 1) as nat)
    } else {
        None
    }
}

fn is_rest_char(c: char) -> (rest: bool)
    ensures
        rest == is_rest(c),
{
    c == '_' || is_alphanumeric(c)
}

/// Whether two texts are the same.
fn same_text(a: &str, b: &str) -> (same: bool)
    ensures
        same == (a@ == b@),
{
    let n = a.unicode_len();
    if n != b.unicode_len() {
        return false;
    }
    let mut i: usize = 0;
    while i < n
        invariant
            i <= n,
            n == a@.len(),
            n == b@.len(),
            forall|j: int| 0 <= j < i ==> a@[j] == b@[j],
        decreases n - i,
    {
        if a.get_char(i) != b.get_char(i) {
            return false;
        }
        i = i + 1;
    }
    proof {
        assert(a@ =~= b@);
    }
    true
}

/// Whether `s` is a reserved word.
fn is_keyword_text(s: &str) -> (keyword: bool)
    ensures
        keyword == is_keyword(s@),
{
    if same_text(s, "_") {
        proof {
            reveal_strlit("_");
            assert(s@ =~= seq!['_']);
        }
        return true;
    }
    if same_text(s, "alias") {
        proof {
            reveal_strlit("alias");
            assert(s@ =~= seq!['a', 'l', 'i', 'a', 's']);
        }
        return true;
    }
    if same_text(s, "and") {
        proof {
            reveal_strlit("and");
            assert(s@ =~= seq!['a', 'n', 'd']);
        }
        return true;
    }
    if same_text(s, "as") {
        proof {
            reveal_strlit("as");
            assert(s@ =~= seq!['a', 's']);
        }
        return true;
    }
    if same_text(s, "break") {
        proof {
            reveal_strlit("break");
            assert(s@ =~= seq!['b', 'r', 'e', 'a', 'k']);
        }
        return true;
    }
    if same_text(s, "continue") {
        proof {
            reveal_strlit("continue");
            assert(s@ =~= seq!['c', 'o', 'n', 't', 'i', 'n', 'u', 'e']);
        }
        return true;
    }
    if same_text(s, "else") {
        proof {
            reveal_strlit("else");
            assert(s@ =~= seq!['e', 'l', 's', 'e']);
        }
        return true;
    }
    if same_text(s, "for") {
        proof {
            reveal_strlit("for");
            assert(s@ =~= seq!['f', 'o', 'r']);
        }
        return true;
    }
    if same_text(s, "if") {
        proof {
            reveal_strlit("if");
            assert(s@ =~= seq!['i', 'f']);
        }
        return true;
    }
    if same_text(s, "imm") {
        proof {
            reveal_strlit("imm");
            assert(s@ =~= seq!['i', 'm', 'm']);
        }
        return true;
    }
    if same_text(s, "impl") {
        proof {
            reveal_strlit("impl");
            assert(s@ =~= seq!['i', 'm', 'p', 'l']);
        }
        return true;
    }
    if same_text(s, "in") {
        proof {
            reveal_strlit("in");
            assert(s@ =~= seq!['i', 'n']);
        }
        return true;
    }
    if same_text(s, "len") {
        proof {
            reveal_strlit("len");
            assert(s@ =~= seq!['l', 'e', 'n']);
        }
        return true;
    }
    if same_text(s, "loop") {
        proof {
            reveal_strlit("loop");
            assert(s@ =~= seq!['l', 'o', 'o', 'p']);
        }
        return true;
    }
    if same_text(s, "match") {
        proof {
            reveal_strlit("match");
            assert(s@ =~= seq!['m', 'a', 't', 'c', 'h']);
        }
        return true;
    }
    if same_text(s, "mod") {
        proof {
            reveal_strlit("mod");
            assert(s@ =~= seq!['m', 'o', 'd']);
        }
        return true;
    }
    if same_text(s, "mut") {
        proof {
            reveal_strlit("mut");
            assert(s@ =~= seq!['m', 'u', 't']);
        }
        return true;
    }
    if same_text(s, "newtype") {
        proof {
            reveal_strlit("newtype");
            assert(s@ =~= seq!['n', 'e', 'w', 't', 'y', 'p', 'e']);
        }
        return true;
    }
    if same_text(s, "not") {
        proof {
            reveal_strlit("not");
            assert(s@ =~= seq!['n', 'o', 't']);
        }
        return true;
    }
    if same_text(s, "once") {
        proof {
            reveal_strlit("once");
            assert(s@ =~= seq!['o', 'n', 'c', 'e']);
        }
        return true;
    }
    if same_text(s, "or") {
        proof {
            reveal_strlit("or");
            assert(s@ =~= seq!['o', 'r']);
        }
        return true;
    }
    if same_text(s, "pub") {
        proof {
            reveal_strlit("pub");
            assert(s@ =~= seq!['p', 'u', 'b']);
        }
        return true;
    }
    if same_text(s, "return") {
        proof {
            reveal_strlit("return");
            assert(s@ =~= seq!['r', 'e', 't', 'u', 'r', 'n']);
        }
        return true;
    }
    if same_text(s, "share") {
        proof {
            reveal_strlit("share");
            assert(s@ =~= seq!['s', 'h', 'a', 'r', 'e']);
        }
        return true;
    }
    if same_text(s, "trait") {
        proof {
            reveal_strlit("trait");
            assert(s@ =~= seq!['t', 'r', 'a', 'i', 't']);
        }
        return true;
    }
    if same_text(s, "undef") {
        proof {
            reveal_strlit("undef");
            assert(s@ =~= seq!['u', 'n', 'd', 'e', 'f']);
        }
        return true;
    }
    if same_text(s, "where") {
        proof {
            reveal_strlit("where");
            assert(s@ =~= seq!['w', 'h', 'e', 'r', 'e']);
        }
        return true;
    }
    if same_text(s, "while") {
        proof {
            reveal_strlit("while");
            assert(s@ =~= seq!['w', 'h', 'i', 'l', 'e']);
        }
        return true;
    }
    proof {
        reveal_strlit("_");
        assert("_"@ =~= seq!['_']);
        reveal_strlit("alias");
        assert("alias"@ =~= seq!['a', 'l', 'i', 'a', 's']);
        reveal_strlit("and");
        assert("and"@ =~= seq!['a', 'n', 'd']);
        reveal_strlit("as");
        assert("as"@ =~= seq!['a', 's']);
        reveal_strlit("break");
        assert("break"@ =~= seq!['b', 'r', 'e', 'a', 'k']);
        reveal_strlit("continue");
        assert("continue"@ =~= seq!['c', 'o', 'n', 't', 'i', 'n', 'u', 'e']);
        reveal_strlit("else");
        assert("else"@ =~= seq!['e', 'l', 's', 'e']);
        reveal_strlit("for");
        assert("for"@ =~= seq!['f', 'o', 'r']);
        reveal_strlit("if");
        assert("if"@ =~= seq!['i', 'f']);
        reveal_strlit("imm");
        assert("imm"@ =~= seq!['i', 'm', 'm']);
        reveal_strlit("impl");
        assert("impl"@ =~= seq!['i', 'm', 'p', 'l']);
        reveal_strlit("in");
        assert("in"@ =~= seq!['i', 'n']);
        reveal_strlit("len");
        assert("len"@ =~= seq!['l', 'e', 'n']);
        reveal_strlit("loop");
        assert("loop"@ =~= seq!['l', 'o', 'o', 'p']);
        reveal_strlit("match");
        assert("match"@ =~= seq!['m', 'a', 't', 'c', 'h']);
        reveal_strlit("mod");
        assert("mod"@ =~= seq!['m', 'o', 'd']);
        reveal_strlit("mut");
        assert("mut"@ =~= seq!['m', 'u', 't']);
        reveal_strlit("newtype");
        assert("newtype"@ =~= seq!['n', 'e', 'w', 't', 'y', 'p', 'e']);
        reveal_strlit("not");
        assert("not"@ =~= seq!['n', 'o', 't']);
        reveal_strlit("once");
        assert("once"@ =~= seq!['o', 'n', 'c', 'e']);
        reveal_strlit("or");
        assert("or"@ =~= seq!['o', 'r']);
        reveal_strlit("pub");
        assert("pub"@ =~= seq!['p', 'u', 'b']);
        reveal_strlit("return");
        assert("return"@ =~= seq!['r', 'e', 't', 'u', 'r', 'n']);
        reveal_strlit("share");
        assert("share"@ =~= seq!['s', 'h', 'a', 'r', 'e']);
        reveal_strlit("trait");
        assert("trait"@ =~= seq!['t', 'r', 'a', 'i', 't']);
        reveal_strlit("undef");
        assert("undef"@ =~= seq!['u', 'n', 'd', 'e', 'f']);
        reveal_strlit("where");
        assert("where"@ =~= seq!['w', 'h', 'e', 'r', 'e']);
        reveal_strlit("while");
        assert("while"@ =~= seq!['w', 'h', 'i', 'l', 'e']);
    }
    false
}

/// The identifier or keyword at the start of `src` (a letter or `_`, then
/// letters, digits and `_`), with the text after it.
pub fn ident_or_keyword(src: &str) -> (result: Result<(String, &str), IdentError>)
    ensures
        match word_len(src@) {
            Some(k) => result matches Ok((word, rest)) && word@ == src@.subrange(0, k as int)
                && rest@ == src@.skip(k as int),
            None => result == Err::<(String, &str), IdentError>(IdentError::NotAnIdentifier),
        },
{
    let n = src.unicode_len();
    if n == 0 {
        return Err(IdentError::NotAnIdentifier);
    }
    let first = src.get_char(0);
    if !is_rest_char(first) || ('0' <= first && first <= '9') {
        return Err(IdentError::NotAnIdentifier);
    }
    let mut end: usize = 1;
    while end < n && is_rest_char(src.get_char(end))
        invariant
            1 <= end <= n,
            n == src@.len(),
            rest_end(src@, 1) == rest_end(src@, end as int),
        decreases n - end,
    {
        end = end + 1;
    }
    let word = String::from_str(src.substring_char(0, end));
    let rest = src.substring_char(end, n);
    proof {
        assert(rest@ =~= src@.skip(end as int));
    }
    Ok((word, rest))
}

/// The keyword `word` at the start of `src`, not followed by an
/// identifier character, with the text after it.
pub fn keyword<'a>(word: &str, src: &'a str) -> (result: Result<((), &'a str), IdentError>)
    ensures
        match result {
            Ok((_, rest)) => word@.len() <= src@.len() && src@.subrange(0, word@.len() as int)
                == word@ && !(word@.len() < src@.len() && is_rest(src@[word@.len() as int]))
                && rest@ == src@.skip(word@.len() as int),
            Err(e) => e == IdentError::NotTheKeyword && !(word@.len() <= src@.len() && src@.subrange(
                0,
                word@.len() as int,
            ) == word@ && !(word@.len() < src@.len() && is_rest(
                src@[word@.len() as int],
            ))),
        },
{
    let k = word.unicode_len();
    let n = src.unicode_len();
    if k > n {
        return Err(IdentError::NotTheKeyword);
    }
    let head = src.substring_char(0, k);
    if !same_text(head, word) {
        return Err(IdentError::NotTheKeyword);
    }
    if k < n && is_rest_char(src.get_char(k)) {
        return Err(IdentError::NotTheKeyword);
    }
    let rest = src.substring_char(k, n);
    proof {
        assert(rest@ =~= src@.skip(k as int));
    }
    Ok(((), rest))
}

/// The identifier at the start of `src`, a reserved word refused, with the
/// text after it.
pub fn ident(src: &str) -> (result: Result<(String, &str), IdentError>)
    ensures
        match word_len(src@) {
            Some(k) => if is_keyword(src@.subrange(0, k as int)) {
                result == Err::<(String, &str), IdentError>(IdentError::Keyword)
            } else {
                result matches Ok((word, rest)) && word@ == src@.subrange(0, k as int) && rest@
                    == src@.skip(k as int)
            },
            None => result == Err::<(String, &str), IdentError>(IdentError::NotAnIdentifier),
        },
{
    match ident_or_keyword(src) {
        Err(e) => Err(e),
        Ok((word, rest)) => {
            if is_keyword_text(word.as_str()) {
                Err(IdentError::Keyword)
            } else {
                Ok((word, rest))
            }
        },
    }
}

} // verus!
