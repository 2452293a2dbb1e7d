//! Full-text-search tokenizer: splits NFKC-normalized text into maximal runs
//! of one character class and turns each run into tokens.
use unicode_normalization::UnicodeNormalization;
use vstd::prelude::*;

use crate::text::{ascii_lower, is_ascii_digit, is_ascii_digit_exec, is_ascii_letter, is_ascii_letter_exec, string_push, to_ascii_lower};

verus! {

/// A token with its position, counted in characters of the normalized text.
#[derive(Debug, PartialEq, Clone)]
pub enum Token {
    Alphabetic(String, usize),
    Numeric(String, usize),
    NGram(String, usize),
}

/// What a token holds, as mathematical values.
pub enum TokenView {
    Alphabetic(Seq<char>, nat),
    Numeric(Seq<char>, nat),
    NGram(Seq<char>, nat),
}

impl View for Token {
    type V = TokenView;

    open spec fn view(&self) -> TokenView {
        match self {
            Token::Alphabetic(s, p) => TokenView::Alphabetic(s@, *p as nat),
            Token::Numeric(s, p) => TokenView::Numeric(s@, *p as nat),
            Token::NGram(s, p) => TokenView::NGram(s@, *p as nat),
        }
    }
}

/// The views of a sequence of tokens.
pub open spec fn tokens_view(v: Seq<Token>) -> Seq<TokenView> {
    v.map_values(|t: Token| t@)
}

/// The class of a character, which decides where runs begin and end.
#[derive(Debug, PartialEq, Eq, Structural, Clone, Copy)]
pub enum CharType {
    Alphabetic,
    Numeric,
    Other,
    Separator,
}

/// ASCII letters and digits form their own classes, every other ASCII
/// character separates, and every non-ASCII character is `Other`.
pub open spec fn char_type(c: char) -> CharType {
    if is_ascii_letter(c) {
        CharType::Alphabetic
    } else if is_ascii_digit(c) {
        CharType::Numeric
    } else if (c as u32) < 0x80 {
        CharType::Separator
    } else {
        CharType::Other
    }
}

/// The tokens of one run `run` of class `t` that starts at position `start`:
/// a numeric run is one token, an alphabetic run is one lower-cased token,
/// an `Other` run is one token when shorter than two characters and else one
/// token for every two adjacent characters, and separators give none.
pub open spec fn run_tokens(run: Seq<char>, t: CharType, start: nat) -> Seq<TokenView> {
    if run.len() == 0 {
        seq![]
    } else {
        match t {
            CharType::Numeric => seq![TokenView::Numeric(run, start)],
            CharType::Alphabetic => seq![TokenView::Alphabetic(ascii_lower(run), start)],
            CharType::Other => if run.len() < 2 {
                seq![TokenView::NGram(run, start)]
            } else {
                Seq::new(
                    (run.len() - 1) as nat,
                    |i: int| TokenView::NGram(run.subrange(i, i + 2), (start + i) as nat),
                )
            },
            CharType::Separator => seq![],
        }
    }
}

/// Where the last maximal run of one character class in `s` begins.
pub open spec fn last_run_start(s: Seq<char>) -> nat
    decreases s.len(),
{
    if s.len() <= 1 {
        0
    } else if char_type(s[s.len() - 2]) == char_type(s[s.len() - 1]) {
        last_run_start(s.drop_last())
    } else {
        (s.len() - 1) as nat
    }
}

/// The last run of a non-empty text starts inside it.
pub proof fn lemma_last_run_start_bound(s: Seq<char>)
    requires
        s.len() >= 1,
    ensures
        last_run_start(s) < s.len(),
    decreases s.len(),
{
    if s.len() > 1 && char_type(s[s.len() - 2]) == char_type(s[s.len() - 1]) {
        lemma_last_run_start_bound(s.drop_last());
    }
}

/// The tokens of a normalized text: the tokens of each maximal run of one
/// character class, in the order of the runs.
pub open spec fn tokens_of(s: Seq<char>) -> Seq<TokenView>
    decreases s.len(),
{
    if s.len() == 0 {
        seq![]
    } else {
        let r = last_run_start(s);
        proof {
            lemma_last_run_start_bound(s);
        }
        tokens_of(s.subrange(0, r as int)) + run_tokens(
            s.subrange(r as int, s.len() as int),
            char_type(s[s.len() - 1]),
            r,
        )
    }
}

/// The NFKC normal form of a text, as `unicode_normalization` computes it.
pub uninterp spec fn nfkc(s: Seq<char>) -> Seq<char>;

/// `UnicodeNormalization::nfkc` of `unicode_normalization`, collected into a
/// `String`: the result is the NFKC form of `input`, which is a function of
/// `input` alone; what that form is is not stated here.
#[verifier::external_body]
fn nfkc_normalize(input: &str) -> (res: String)
    ensures
        res@ == nfkc(input@),
{
    input.nfkc().collect::<String>()
}

#[derive(Debug)]
pub struct FtsTokenizer {}

impl FtsTokenizer {
    pub fn new() -> (t: Self) {
        FtsTokenizer {  }
    }

    fn get_char_type(c: char) -> (t: CharType)
        ensures
            t == char_type(c),
    {
        if is_ascii_letter_exec(c) {
            CharType::Alphabetic
        } else if is_ascii_digit_exec(c) {
            CharType::Numeric
        } else if (c as u32) < 0x80 {
            CharType::Separator
        } else {
            CharType::Other
        }
    }

    fn process_token(token: &str, char_type: CharType, start_pos: usize) -> (res: Vec<Token>)
        requires
            char_type == CharType::Alphabetic ==> forall|i: int|
                0 <= i < token@.len() ==> is_ascii_letter(#[trigger] token@[i]),
            char_type == CharType::Other && token@.len() >= 2 ==> start_pos + token@.len() - 1
                <= usize::MAX,
        ensures
            tokens_view(res@) == run_tokens(token@, char_type, start_pos as nat),
            char_type == CharType::Other && token@.len() >= 2 ==> {
                &&& res@.len() == token@.len() - 1
                &&& forall|i: int|
                    0 <= i < token@.len() - 1 ==> (#[trigger] res@[i])@ == TokenView::NGram(
                        token@.subrange(i, i + 2),
                        (start_pos + i) as nat,
                    )
            },
    {
        if token.is_empty() {
            proof {
                assert(tokens_view(Seq::<Token>::empty()) =~= Seq::<TokenView>::empty());
            }
            return Vec::new();
        }
        match char_type {
            CharType::Numeric => {
                let mut v = Vec::new();
                v.push(Token::Numeric(token.to_owned(), start_pos));
                proof {
                    assert(tokens_view(v@) =~= run_tokens(token@, char_type, start_pos as nat));
                }
                v
            },
            CharType::Alphabetic => {
                let mut v = Vec::new();
                v.push(Token::Alphabetic(to_ascii_lower(token), start_pos));
                proof {
                    assert(tokens_view(v@) =~= run_tokens(token@, char_type, start_pos as nat));
                }
                v
            },
            CharType::Other => {
                let mut chars: Vec<char> = Vec::new();
                for c in it: token.chars()
                    invariant
                        it.seq() == token@,
                        chars@ == token@.take(it.index() as int),
                {
                    proof {
                        assert(token@.take(it.index() + 1) == token@.take(it.index() as int).push(
                            c,
                        ));
                    }
                    chars.push(c);
                }
                proof {
                    assert(token@.take(token@.len() as int) =~= token@);
                }
                let n = chars.len();
                let mut v: Vec<Token> = Vec::new();
                if n < 2 {
                    v.push(Token::NGram(token.to_owned(), start_pos));
                    proof {
                        assert(tokens_view(v@) =~= run_tokens(
                            token@,
                            char_type,
                            start_pos as nat,
                        ));
                    }
                    return v;
                }
                let mut pos = start_pos;
                let mut i: usize = 0;
                while i + 1 < n
                    invariant
                        n == chars@.len(),
                        chars@ == token@,
                        n >= 2,
                        start_pos + n - 1 <= usize::MAX,
                        i + 1 <= n,
                        pos == start_pos + i,
                        tokens_view(v@) =~= Seq::new(
                            i as nat,
                            |j: int| TokenView::NGram(token@.subrange(j, j + 2), (start_pos + j) as nat),
                        ),
                    decreases n - i,
                {
                    let mut s = String::new();
                    string_push(&mut s, chars[i]);
                    string_push(&mut s, chars[i + 1]);
                    proof {
                        assert(s@ =~= token@.subrange(i as int, i + 2));
                    }
                    let ghost old_v = v@;
                    v.push(Token::NGram(s, pos));
                    proof {
                        assert(v@ =~= old_v.push(Token::NGram(s, pos)));
                        assert(tokens_view(v@) =~= tokens_view(old_v).push(
                            TokenView::NGram(token@.subrange(i as int, i + 2), pos as nat),
                        ));
                    }
                    pos = pos + 1;
                    i = i + 1;
                }
                proof {
                    assert forall|j: int| 0 <= j < token@.len() - 1 implies (#[trigger] v@[j])@
                        == TokenView::NGram(token@.subrange(j, j + 2), (start_pos + j) as nat) by {
                        assert(tokens_view(v@)[j] == v@[j]@);
                    }
                }
                v
            },
            CharType::Separator => {
                proof {
                    assert(tokens_view(Seq::<Token>::empty()) =~= Seq::<TokenView>::empty());
                }
                Vec::new()
            },
        }
    }

    /// Tokens of `input` after NFKC normalization.
    pub fn tokenize(&self, input: &str) -> (res: Vec<Token>)
        ensures
            tokens_view(res@) == tokens_of(nfkc(input@)),
    {
        let normalized = nfkc_normalize(input);
        self.tokenize_normalized(normalized.as_str())
    }

    /// Tokens of a text that is already normalized: the tokens of its maximal
    /// runs of one character class, positions counted in characters.
    pub fn tokenize_normalized(&self, normalized: &str) -> (res: Vec<Token>)
        ensures
            tokens_view(res@) == tokens_of(normalized@),
    {
        let ghost s = normalized@;
        let n = normalized.unicode_len();
        let mut result: Vec<Token> = Vec::new();
        let mut current_token = String::new();
        let mut current_type = CharType::Separator;
        let mut current_start: usize = 0;
        let mut pos: usize = 0;

        for c in it: normalized.chars()
            invariant
                it.seq() == s,
                s == normalized@,
                n == s.len(),
                pos == it.index(),
                it.index() <= s.len(),
                it.index() == 0 ==> {
                    &&& result@.len() == 0
                    &&& current_token@.len() == 0
                    &&& current_type == CharType::Separator
                },
                it.index() > 0 ==> {
                    let k = it.index() as int;
                    let rs = last_run_start(s.take(k));
                    &&& current_type == char_type(s[k - 1])
                    &&& tokens_view(result@) == tokens_of(s.take(rs as int))
                    &&& current_token@ == (if current_type == CharType::Separator {
                        Seq::<char>::empty()
                    } else {
                        s.subrange(rs as int, k)
                    })
                    &&& current_type != CharType::Separator ==> current_start == rs
                },
        {
            let ghost k = it.index() as int;
            let ctype = Self::get_char_type(c);
            proof {
                if k > 0 {
                    lemma_step(s, k);
                }
            }
            if ctype != current_type && !current_token.as_str().is_empty() {
                proof {
                    let rs = last_run_start(s.take(k));
                    lemma_last_run_start_bound(s.take(k));
                    assert(s.take(k).subrange(rs as int, k) =~= s.subrange(rs as int, k));
                    assert(s.take(k)[k - 1] == s[k - 1]);
                    lemma_letters_of_run(s.take(k), current_token@, current_type);
                }
                let ghost old_result = result@;
                let mut toks = Self::process_token(current_token.as_str(), current_type, current_start);
                let ghost toks_v = toks@;
                result.append(&mut toks);
                proof {
                    assert(tokens_view(result@) =~= tokens_view(old_result) + tokens_view(toks_v));
                }
                current_token = String::new();
                current_start = pos;
            }
            if ctype != CharType::Separator {
                if current_token.as_str().is_empty() {
                    current_start = pos;
                }
                string_push(&mut current_token, c);
            }
            current_type = ctype;
            pos = pos + 1;
            proof {
                assert(s.take(k + 1).subrange(0, k) =~= s.take(k));
                assert(s.take(k + 1)[k] == c);
                if k > 0 {
                    let rs = last_run_start(s.take(k));
                    if ctype == char_type(s[k - 1]) {
                        if ctype != CharType::Separator {
                            assert(s.subrange(rs as int, k + 1) =~= s.subrange(rs as int, k).push(c));
                        }
                    } else {
                        assert(s.subrange(k, k + 1) =~= seq![c]);
                    }
                } else {
                    assert(last_run_start(s.take(1)) == 0);
                    assert(s.take(0) =~= Seq::<char>::empty());
                    assert(tokens_of(Seq::<char>::empty()) =~= Seq::<TokenView>::empty());
                    assert(tokens_view(result@) =~= Seq::<TokenView>::empty());
                    assert(s.subrange(0, 1) =~= seq![c]);
                }
            }
        }
        proof {
            assert(s.take(s.len() as int) =~= s);
        }
        if !current_token.as_str().is_empty() {
            let ghost old_result = result@;
            proof {
                lemma_tokens_split(s);
                lemma_letters_of_run(s, current_token@, current_type);
            }
            let mut toks = Self::process_token(current_token.as_str(), current_type, current_start);
            let ghost toks_v = toks@;
            result.append(&mut toks);
            proof {
                assert(tokens_view(result@) =~= tokens_view(old_result) + tokens_view(toks_v));
            }
        } else {
            proof {
                if s.len() > 0 {
                    lemma_tokens_split(s);
                    assert(run_tokens(
                        s.subrange(last_run_start(s) as int, s.len() as int),
                        char_type(s[s.len() - 1]),
                        last_run_start(s),
                    ) =~= Seq::<TokenView>::empty());
                    assert(s.take(last_run_start(s) as int) =~= s.subrange(0, last_run_start(s) as int));
                } else {
                    assert(tokens_view(result@) =~= Seq::<TokenView>::empty());
                }
            }
        }
        result
    }
}

/// Every character of the last run of `t` has the class of the last
/// character.
proof fn lemma_run_homogeneous(t: Seq<char>)
    requires
        t.len() >= 1,
    ensures
        forall|j: int|
            last_run_start(t) <= j < t.len() ==> char_type(#[trigger] t[j]) == char_type(
                t[t.len() - 1],
            ),
    decreases t.len(),
{
    if t.len() > 1 && char_type(t[t.len() - 2]) == char_type(t[t.len() - 1]) {
        lemma_run_homogeneous(t.drop_last());
        assert forall|j: int| last_run_start(t) <= j < t.len() implies char_type(#[trigger] t[j])
            == char_type(t[t.len() - 1]) by {
            if j < t.len() - 1 {
                assert(t.drop_last()[j] == t[j]);
            }
        }
    }
}

/// The last run of `t`, when alphabetic, is made of ASCII letters.
proof fn lemma_letters_of_run(t: Seq<char>, run: Seq<char>, ty: CharType)
    requires
        t.len() >= 1,
        ty == char_type(t[t.len() - 1]),
        run == t.subrange(last_run_start(t) as int, t.len() as int),
    ensures
        ty == CharType::Alphabetic ==> forall|i: int|
            0 <= i < run.len() ==> is_ascii_letter(#[trigger] run[i]),
{
    lemma_last_run_start_bound(t);
    lemma_run_homogeneous(t);
    let r = last_run_start(t) as int;
    assert forall|i: int| 0 <= i < run.len() && ty == CharType::Alphabetic implies is_ascii_letter(
        #[trigger] run[i],
    ) by {
        assert(run[i] == t[r + i]);
        assert(char_type(t[r + i]) == ty);
    }
}

/// Unfolds `tokens_of` once at its last run.
proof fn lemma_tokens_split(s: Seq<char>)
    requires
        s.len() >= 1,
    ensures
        last_run_start(s) < s.len(),
        tokens_of(s) == tokens_of(s.take(last_run_start(s) as int)) + run_tokens(
            s.subrange(last_run_start(s) as int, s.len() as int),
            char_type(s[s.len() - 1]),
            last_run_start(s),
        ),
{
    lemma_last_run_start_bound(s);
    assert(s.take(last_run_start(s) as int) =~= s.subrange(0, last_run_start(s) as int));
}

/// How the last run of a prefix changes when one character is appended, and
/// how the tokens of the prefix split at its last run.
proof fn lemma_step(s: Seq<char>, k: int)
    requires
        0 < k < s.len(),
    ensures
        last_run_start(s.take(k)) < k,
        char_type(s[k]) == char_type(s[k - 1]) ==> last_run_start(s.take(k + 1)) == last_run_start(
            s.take(k),
        ),
        char_type(s[k]) != char_type(s[k - 1]) ==> last_run_start(s.take(k + 1)) == k,
        tokens_of(s.take(k)) == tokens_of(s.take(last_run_start(s.take(k)) as int)) + run_tokens(
            s.subrange(last_run_start(s.take(k)) as int, k),
            char_type(s[k - 1]),
            last_run_start(s.take(k)),
        ),
{
    let t = s.take(k + 1);
    assert(t.drop_last() =~= s.take(k));
    assert(t[k - 1] == s[k - 1]);
    assert(t[k] == s[k]);
    lemma_tokens_split(s.take(k));
    let rs = last_run_start(s.take(k));
    assert(s.take(k).take(rs as int) =~= s.take(rs as int));
    assert(s.take(k).subrange(rs as int, k) =~= s.subrange(rs as int, k));
}

/// Token `t` is found in the text `s` at its position: its text is the
/// characters of `s` there (lower-cased for an alphabetic token), and it is
/// not empty.
pub open spec fn token_located(s: Seq<char>, t: TokenView) -> bool {
    match t {
        TokenView::Alphabetic(w, p) => {
            &&& 0 < w.len()
            &&& p + w.len() <= s.len()
            &&& w == ascii_lower(s.subrange(p as int, (p + w.len()) as int))
        },
        TokenView::Numeric(w, p) => {
            &&& 0 < w.len()
            &&& p + w.len() <= s.len()
            &&& w == s.subrange(p as int, (p + w.len()) as int)
        },
        TokenView::NGram(w, p) => {
            &&& 0 < w.len()
            &&& p + w.len() <= s.len()
            &&& w == s.subrange(p as int, (p + w.len()) as int)
        },
    }
}

proof fn lemma_located_in_longer(pre: Seq<char>, s: Seq<char>, t: TokenView)
    requires
        pre.len() <= s.len(),
        pre == s.subrange(0, pre.len() as int),
        token_located(pre, t),
    ensures
        token_located(s, t),
{
    match t {
        TokenView::Alphabetic(w, p) => {
            assert(pre.subrange(p as int, (p + w.len()) as int) =~= s.subrange(p as int, (p + w.len()) as int));
        },
        TokenView::Numeric(w, p) => {
            assert(pre.subrange(p as int, (p + w.len()) as int) =~= s.subrange(p as int, (p + w.len()) as int));
        },
        TokenView::NGram(w, p) => {
            assert(pre.subrange(p as int, (p + w.len()) as int) =~= s.subrange(p as int, (p + w.len()) as int));
        },
    }
}

proof fn lemma_run_located(s: Seq<char>, r: nat, t: CharType, j: int)
    requires
        r < s.len(),
        0 <= j < run_tokens(s.subrange(r as int, s.len() as int), t, r).len(),
    ensures
        token_located(s, run_tokens(s.subrange(r as int, s.len() as int), t, r)[j]),
{
    let run = s.subrange(r as int, s.len() as int);
    match t {
        CharType::Numeric => {
            assert(s.subrange(r as int, (r + run.len()) as int) =~= run);
        },
        CharType::Alphabetic => {
            assert(s.subrange(r as int, (r + run.len()) as int) =~= run);
        },
        CharType::Other => {
            if run.len() < 2 {
                assert(s.subrange(r as int, (r + run.len()) as int) =~= run);
            } else {
                assert(s.subrange(r + j, r + j + 2) =~= run.subrange(j, j + 2));
            }
        },
        CharType::Separator => {},
    }
}

/// Every token of a text is found in the text at its position: its text is
/// the characters there, lower-cased for an alphabetic token.
pub proof fn lemma_tokens_located(s: Seq<char>)
    ensures
        forall|i: int| 0 <= i < tokens_of(s).len() ==> token_located(s, #[trigger] tokens_of(s)[i]),
    decreases s.len(),
{
    if s.len() > 0 {
        lemma_last_run_start_bound(s);
        let r = last_run_start(s);
        let pre = s.subrange(0, r as int);
        let t = char_type(s[s.len() - 1]);
        let a = tokens_of(pre);
        let b = run_tokens(s.subrange(r as int, s.len() as int), t, r);
        lemma_tokens_located(pre);
        assert(tokens_of(s) == a + b);
        assert forall|i: int| 0 <= i < tokens_of(s).len() implies token_located(
            s,
            #[trigger] tokens_of(s)[i],
        ) by {
            if i < a.len() {
                assert(tokens_of(s)[i] == a[i]);
                assert(token_located(pre, a[i]));
                lemma_located_in_longer(pre, s, a[i]);
            } else {
                assert(tokens_of(s)[i] == b[i - a.len()]);
                lemma_run_located(s, r, t, i - a.len());
            }
        }
    }
}

/// An `Other` run of two or more characters gives one bigram for every two
/// adjacent characters, at the position of the first of them, and nothing
/// else: `n - 1` tokens for a run of `n` characters.
pub proof fn lemma_other_run_bigrams(run: Seq<char>, start: nat)
    requires
        run.len() >= 2,
    ensures
        run_tokens(run, CharType::Other, start).len() == run.len() - 1,
        forall|i: int|
            0 <= i < run.len() - 1 ==> #[trigger] run_tokens(run, CharType::Other, start)[i]
                == TokenView::NGram(run.subrange(i, i + 2), (start + i) as nat),
{
}

/// A run never starts right after a character of its own class.
proof fn lemma_last_run_start_boundary(s: Seq<char>)
    requires
        s.len() >= 1,
        last_run_start(s) > 0,
    ensures
        last_run_start(s) < s.len(),
        char_type(s[last_run_start(s) - 1]) != char_type(s[last_run_start(s) as int]),
    decreases s.len(),
{
    lemma_last_run_start_bound(s);
    if s.len() > 1 && char_type(s[s.len() - 2]) == char_type(s[s.len() - 1]) {
        let t = s.drop_last();
        lemma_last_run_start_boundary(t);
        let r = last_run_start(t) as int;
        assert(t[r - 1] == s[r - 1]);
        assert(t[r] == s[r]);
    }
}

/// Every two adjacent characters of a text that are both of class `Other`
/// give a bigram token at the position of the first of them: no pair of an
/// `Other` run is left out.
pub proof fn lemma_tokens_complete_bigrams(s: Seq<char>, i: int)
    requires
        0 <= i,
        i + 1 < s.len(),
        char_type(s[i]) == CharType::Other,
        char_type(s[i + 1]) == CharType::Other,
    ensures
        tokens_of(s).contains(TokenView::NGram(s.subrange(i, i + 2), i as nat)),
    decreases s.len(),
{
    lemma_last_run_start_bound(s);
    let r = last_run_start(s) as int;
    let pre = s.subrange(0, r);
    let t = char_type(s[s.len() - 1]);
    let run = s.subrange(r, s.len() as int);
    let a = tokens_of(pre);
    let b = run_tokens(run, t, r as nat);
    assert(tokens_of(s) == a + b);
    let want = TokenView::NGram(s.subrange(i, i + 2), i as nat);
    if i + 1 < r {
        assert(pre[i] == s[i]);
        assert(pre[i + 1] == s[i + 1]);
        lemma_tokens_complete_bigrams(pre, i);
        assert(pre.subrange(i, i + 2) =~= s.subrange(i, i + 2));
        let j = choose|j: int| 0 <= j < a.len() && a[j] == want;
        assert((a + b)[j] == want);
    } else if i + 1 == r {
        lemma_last_run_start_boundary(s);
        assert(false);
    } else {
        lemma_run_homogeneous(s);
        assert(char_type(s[i]) == t);
        lemma_other_run_bigrams(run, r as nat);
        assert(run.subrange(i - r, i - r + 2) =~= s.subrange(i, i + 2));
        assert(b[i - r] == want);
        assert((a + b)[a.len() + (i - r)] == want);
    }
}

/// `s[a..b]` is a maximal run of class `t`: every character in it has that
/// class and the characters just before and just after it, if any, do not.
pub open spec fn is_maximal_run(s: Seq<char>, a: int, b: int, t: CharType) -> bool {
    &&& 0 <= a < b <= s.len()
    &&& forall|j: int| a <= j < b ==> char_type(#[trigger] s[j]) == t
    &&& a == 0 || char_type(s[a - 1]) != t
    &&& b == s.len() || char_type(s[b]) != t
}

/// Every maximal run of a text gives its token: a numeric run its digits, an
/// alphabetic run its lower-cased letters, and a single `Other` character
/// itself, each at the position where the run starts.
pub proof fn lemma_tokens_complete_runs(s: Seq<char>, a: int, b: int, t: CharType)
    requires
        is_maximal_run(s, a, b, t),
    ensures
        t == CharType::Numeric ==> tokens_of(s).contains(
            TokenView::Numeric(s.subrange(a, b), a as nat),
        ),
        t == CharType::Alphabetic ==> tokens_of(s).contains(
            TokenView::Alphabetic(ascii_lower(s.subrange(a, b)), a as nat),
        ),
        t == CharType::Other && b == a + 1 ==> tokens_of(s).contains(
            TokenView::NGram(s.subrange(a, b), a as nat),
        ),
    decreases s.len(),
{
    lemma_last_run_start_bound(s);
    lemma_run_homogeneous(s);
    let r = last_run_start(s) as int;
    let pre = s.subrange(0, r);
    let lt = char_type(s[s.len() - 1]);
    let run = s.subrange(r, s.len() as int);
    let xs = tokens_of(pre);
    let ys = run_tokens(run, lt, r as nat);
    assert(tokens_of(s) == xs + ys);
    if b <= r {
        assert forall|j: int| a <= j < b implies char_type(#[trigger] pre[j]) == t by {
            assert(pre[j] == s[j]);
        }
        if a > 0 {
            assert(pre[a - 1] == s[a - 1]);
        }
        if b < r {
            assert(pre[b] == s[b]);
        }
        lemma_tokens_complete_runs(pre, a, b, t);
        assert(pre.subrange(a, b) =~= s.subrange(a, b));
        if t == CharType::Numeric {
            let w = TokenView::Numeric(s.subrange(a, b), a as nat);
            let j = choose|j: int| 0 <= j < xs.len() && xs[j] == w;
            assert((xs + ys)[j] == w);
        } else if t == CharType::Alphabetic {
            let w = TokenView::Alphabetic(ascii_lower(s.subrange(a, b)), a as nat);
            let j = choose|j: int| 0 <= j < xs.len() && xs[j] == w;
            assert((xs + ys)[j] == w);
        } else if t == CharType::Other && b == a + 1 {
            let w = TokenView::NGram(s.subrange(a, b), a as nat);
            let j = choose|j: int| 0 <= j < xs.len() && xs[j] == w;
            assert((xs + ys)[j] == w);
        }
    } else {
        assert(char_type(s[b - 1]) == t);
        assert(t == lt);
        if b < s.len() {
            assert(char_type(s[b]) == lt);
        }
        assert(b == s.len());
        if a < r {
            lemma_last_run_start_boundary(s);
            assert(char_type(s[r - 1]) == t);
            assert(char_type(s[r]) == t);
        }
        if a > r {
            assert(char_type(s[a - 1]) == lt);
        }
        assert(a == r);
        assert(run =~= s.subrange(a, b));
        if t != CharType::Separator && !(t == CharType::Other && b != a + 1) {
            assert(ys.len() == 1);
            assert((xs + ys)[xs.len() as int] == ys[0]);
        }
    }
}

} // verus!
