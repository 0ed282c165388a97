use vstd::prelude::*;

verus! {

/// The white-space characters that separate tokens: the Unicode
/// `White_Space` set, which is what `char::is_whitespace` recognizes.
pub open spec fn is_space_char(c: char) -> bool {
    c == ' ' || c == '\t' || c == '\n' || c == '\r' || c == '\u{b}' || c == '\u{c}' || c
        == '\u{85}' || c == '\u{a0}' || c == '\u{1680}' || c == '\u{2000}' || c == '\u{2001}' || c
        == '\u{2002}' || c == '\u{2003}' || c == '\u{2004}' || c == '\u{2005}' || c == '\u{2006}'
        || c == '\u{2007}' || c == '\u{2008}' || c == '\u{2009}' || c == '\u{200a}' || c
        == '\u{2028}' || c == '\u{2029}' || c == '\u{202f}' || c == '\u{205f}' || c == '\u{3000}'
}

pub fn is_space(c: char) -> (r: bool)
    ensures
        r == is_space_char(c),
{
    c == ' ' || c == '\t' || c == '\n' || c == '\r' || c == '\u{b}' || c == '\u{c}' || c
        == '\u{85}' || c == '\u{a0}' || c == '\u{1680}' || c == '\u{2000}' || c == '\u{2001}' || c
        == '\u{2002}' || c == '\u{2003}' || c == '\u{2004}' || c == '\u{2005}' || c == '\u{2006}'
        || c == '\u{2007}' || c == '\u{2008}' || c == '\u{2009}' || c == '\u{200a}' || c
        == '\u{2028}' || c == '\u{2029}' || c == '\u{202f}' || c == '\u{205f}' || c == '\u{3000}'
}

/// The position just past the maximal run of non-space characters at `i`.
pub open spec fn token_end(s: Seq<char>, i: int) -> int
    decreases s.len() - i,
{
    if i < 0 || i >= s.len() || is_space_char(s[i]) {
        i
    } else {
        token_end(s, i + 1)
    }
}

proof fn lemma_token_end(s: Seq<char>, i: int)
    requires
        0 <= i <= s.len(),
    ensures
        i <= token_end(s, i) <= s.len(),
    decreases s.len() - i,
{
    if i < s.len() && !is_space_char(s[i]) {
        lemma_token_end(s, i + 1);
    }
}

/// The whitespace-delimited tokens of `s` from position `i` on.
pub open spec fn tokens_from(s: Seq<char>, i: int) -> Seq<Seq<char>>
    decreases s.len() - i,
    via tokens_from_decreases
{
    if i < 0 || i >= s.len() {
        Seq::empty()
    } else if is_space_char(s[i]) {
        tokens_from(s, i + 1)
    } else {
        seq![s.subrange(i, token_end(s, i))] + tokens_from(s, token_end(s, i))
    }
}

#[via_fn]
proof fn tokens_from_decreases(s: Seq<char>, i: int) {
    if 0 <= i && i < s.len() && !is_space_char(s[i]) {
        lemma_token_end(s, i + 1);
    }
}

pub open spec fn spec_tokens(s: Seq<char>) -> Seq<Seq<char>> {
    tokens_from(s, 0)
}

pub open spec fn semi_token() -> Seq<char> {
    seq![';']
}

pub open spec fn cd_token() -> Seq<char> {
    seq!['c', 'd']
}

/// The token list the builder consumes: the line's tokens, with the
/// synthetic terminator appended when the last token is not already one.
pub open spec fn spec_prepared(s: Seq<char>) -> Seq<Seq<char>> {
    let t = spec_tokens(s);
    if t.len() > 0 && t.last() == semi_token() {
        t
    } else {
        t.push(semi_token())
    }
}

/// Splits a line into its whitespace-delimited tokens and appends the
/// synthetic terminator, so the builder always sees a closing boundary.
/// No quoting or escaping is interpreted.
pub fn tokenize(line: &str) -> (toks: Vec<String>)
    ensures
        toks.deep_view() == spec_prepared(line@),
{
    let n = line.unicode_len();
    let mut toks: Vec<String> = Vec::new();
    let mut i: usize = 0;
    while i < n
        invariant
            n == line@.len(),
            i <= n,
            spec_tokens(line@) =~= toks.deep_view() + tokens_from(line@, i as int),
        decreases n - i,
    {
        let c = line.get_char(i);
        if is_space(c) {
            i += 1;
        } else {
            let start = i;
            let mut j = i + 1;
            proof {
                lemma_token_end(line@, start as int);
            }
            while j < n && !is_space(line.get_char(j))
                invariant
                    n == line@.len(),
                    start < j <= n,
                    token_end(line@, start as int) == token_end(line@, j as int),
                    forall|k: int| start <= k < j ==> !is_space_char(line@[k]),
                decreases n - j,
            {
                j += 1;
            }
            proof {
                assert(token_end(line@, j as int) == j as int);
                assert(token_end(line@, start as int) == j as int);
            }
            let tok = line.substring_char(start, j);
            let ghost pre = toks.deep_view();
            toks.push(String::from_str(tok));
            proof {
                assert(toks.deep_view() =~= pre.push(line@.subrange(start as int, j as int)));
                assert(tokens_from(line@, start as int) == seq![
                    line@.subrange(start as int, j as int),
                ] + tokens_from(line@, j as int));
                assert(spec_tokens(line@) =~= toks.deep_view() + tokens_from(line@, j as int));
            }
            i = j;
        }
    }
    proof {
        assert(tokens_from(line@, n as int) =~= Seq::<Seq<char>>::empty());
        assert(toks.deep_view() =~= spec_tokens(line@));
    }
    let needs_semi = if toks.len() == 0 {
        true
    } else {
        let last = &toks[toks.len() - 1];
        let is_semi = last.as_str().unicode_len() == 1 && last.as_str().get_char(0) == ';';
        proof {
            if is_semi {
                assert(last@ =~= semi_token());
            } else if last@.len() == 1 {
                assert(last@ != semi_token());
            } else {
                assert(last@ != semi_token());
            }
        }
        !is_semi
    };
    if needs_semi {
        let ghost pre = toks.deep_view();
        let semi = String::from_str(";");
        proof {
            reveal_strlit(";");
            assert(semi@ =~= semi_token());
        }
        toks.push(semi);
        proof {
            assert(toks.deep_view() =~= pre.push(semi_token()));
        }
    }
    proof {
        assert(toks.deep_view() =~= spec_prepared(line@));
    }
    toks
}

/// The kind of a token, as the builder dispatches on it. Every token that is
/// not one of the six recognized forms is an ordinary word.
pub enum TokKind {
    Cd,
    RedirIn,
    RedirOut,
    Star,
    Pipe,
    Semi,
    Word,
}

pub open spec fn spec_kind(t: Seq<char>) -> TokKind {
    if t == cd_token() {
        TokKind::Cd
    } else if t == seq!['<'] {
        TokKind::RedirIn
    } else if t == seq!['>'] {
        TokKind::RedirOut
    } else if t == seq!['*'] {
        TokKind::Star
    } else if t == seq!['|'] {
        TokKind::Pipe
    } else if t == semi_token() {
        TokKind::Semi
    } else {
        TokKind::Word
    }
}

/// The four tokens that a path lookahead refuses: `<`, `>`, `|`, `;`.
pub open spec fn is_operator(t: Seq<char>) -> bool {
    spec_kind(t) is RedirIn || spec_kind(t) is RedirOut || spec_kind(t) is Pipe || spec_kind(t)
        is Semi
}

pub fn token_kind(t: &String) -> (k: TokKind)
    ensures
        k == spec_kind(t@),
{
    let n = t.as_str().unicode_len();
    if n == 1 {
        let c = t.as_str().get_char(0);
        proof {
            assert(t@ =~= seq![t@[0]]);
        }
        if c == '<' {
            TokKind::RedirIn
        } else if c == '>' {
            TokKind::RedirOut
        } else if c == '*' {
            TokKind::Star
        } else if c == '|' {
            TokKind::Pipe
        } else if c == ';' {
            TokKind::Semi
        } else {
            TokKind::Word
        }
    } else if n == 2 {
        let c0 = t.as_str().get_char(0);
        let c1 = t.as_str().get_char(1);
        if c0 == 'c' && c1 == 'd' {
            proof {
                assert(t@ =~= cd_token());
            }
            TokKind::Cd
        } else {
            proof {
                assert(t@ != cd_token());
            }
            TokKind::Word
        }
    } else {
        TokKind::Word
    }
}

/// Whether the token is one of the four operators, executably.
pub fn is_operator_token(t: &String) -> (r: bool)
    ensures
        r == is_operator(t@),
{
    match token_kind(t) {
        TokKind::RedirIn => true,
        TokKind::RedirOut => true,
        TokKind::Pipe => true,
        TokKind::Semi => true,
        _ => false,
    }
}

} // verus!
