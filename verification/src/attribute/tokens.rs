use core::ops::Range;
use proc_macro2::{Span, TokenStream};
use syn::parse::{ParseStream, Parser};
use vstd::prelude::*;

verus! {

/// One token of the arguments of an attribute; the brackets of a group are tokens
/// of their own.
pub struct Token {
    /// How it is written.
    pub text: String,
    /// It is punctuation that the next token follows without a gap.
    pub joint: bool,
}

impl View for Token {
    type V = (Seq<char>, bool);

    open spec fn view(&self) -> (Seq<char>, bool) {
        (self.text@, self.joint)
    }
}

/// A string literal.
pub struct StrLit {
    /// The text it stands for.
    pub value: String,
    /// What is written behind the closing quote.
    pub suffix: String,
}

impl View for StrLit {
    type V = (Seq<char>, Seq<char>);

    open spec fn view(&self) -> (Seq<char>, Seq<char>) {
        (self.value@, self.suffix@)
    }
}

/// What kind of parameter a function has.
#[derive(Copy, Clone, PartialEq, Eq, Debug, Structural)]
pub enum Input {
    /// A `self` parameter.
    Receiver,
    /// A parameter whose type is a reference.
    Reference,
    /// A parameter of any other type.
    Value,
}

/// Name and parameters of a function.
pub struct Signature {
    /// The name of the function.
    pub name: String,
    /// The kinds of its parameters, in order.
    pub inputs: Vec<Input>,
}

impl Token {
    /// The tokens as plain pairs.
    pub open spec fn views(tokens: Seq<Token>) -> Seq<(Seq<char>, bool)> {
        tokens.map_values(|t: Token| t@)
    }

    /// The text of the tokens from `at` to `end`, with a gap behind each that is
    /// not joint.
    pub open spec fn rendered(tokens: Seq<(Seq<char>, bool)>, at: int, end: int) -> Seq<char>
        decreases end - at,
    {
        if at >= end {
            Seq::empty()
        } else if at + 1 == end {
            tokens[at].0
        } else if tokens[at].1 {
            tokens[at].0 + Token::rendered(tokens, at + 1, end)
        } else {
            tokens[at].0 + seq![' '] + Token::rendered(tokens, at + 1, end)
        }
    }

    /// The number of bytes that `text` takes.
    pub open spec fn size(text: Seq<char>) -> int {
        vstd::utf8::encode_utf8(text).len() as int
    }

    /// The number of bytes that the token at `at` takes with the gap behind it.
    pub open spec fn step(tokens: Seq<(Seq<char>, bool)>, at: int) -> int {
        if tokens[at].1 || at + 1 == tokens.len() {
            Token::size(tokens[at].0)
        } else {
            Token::size(tokens[at].0) + 1
        }
    }

    /// The token that the byte `offset` of the text of the tokens from `at` on
    /// belongs to; a gap belongs to the token in front of it.
    pub open spec fn holding(tokens: Seq<(Seq<char>, bool)>, at: int, offset: int) -> int
        decreases tokens.len() - at,
    {
        if at >= tokens.len() {
            tokens.len() as int
        } else if offset < Token::step(tokens, at) {
            at
        } else {
            Token::holding(tokens, at + 1, offset - Token::step(tokens, at))
        }
    }

    /// The token where the bytes from `start` to `end` of the text of the tokens
    /// from `at` on begin; no bytes stand for the end of the arguments.
    pub open spec fn place_of(
        tokens: Seq<(Seq<char>, bool)>,
        at: int,
        start: int,
        end: int,
    ) -> int {
        if start < end {
            Token::holding(tokens, at, start)
        } else {
            tokens.len() as int
        }
    }

    /// The token that a byte belongs to is none in front of `at`.
    pub proof fn lemma_holding_in_range(tokens: Seq<(Seq<char>, bool)>, at: int, offset: int)
        requires
            at <= tokens.len(),
        ensures
            at <= Token::holding(tokens, at, offset) <= tokens.len(),
        decreases tokens.len() - at,
    {
        if at < tokens.len() {
            let step = Token::step(tokens, at);
            Token::lemma_holding_in_range(tokens, at + 1, offset - step);
        }
    }

    /// The sizes of two texts add up.
    proof fn lemma_size_adds_up(a: Seq<char>, b: Seq<char>)
        ensures
            Token::size(a + b) == Token::size(a) + Token::size(b),
        decreases a.len(),
    {
        if a.len() == 0 {
            assert(a + b =~= b);
        } else {
            assert((a + b).drop_first() =~= a.drop_first() + b);
            Token::lemma_size_adds_up(a.drop_first(), b);
        }
    }

    /// A byte of the written tokens lies in the token it is said to belong to:
    /// not before that token starts, and before the next one does.
    pub proof fn law_bytes_lie_in_their_token(
        tokens: Seq<(Seq<char>, bool)>,
        at: int,
        offset: int,
    )
        requires
            0 <= at <= tokens.len(),
            0 <= offset < Token::size(Token::rendered(tokens, at, tokens.len() as int)),
        ensures
            ({
                let n = tokens.len() as int;
                let i = Token::holding(tokens, at, offset);
                let whole = Token::size(Token::rendered(tokens, at, n));
                &&& at <= i < n
                &&& whole - Token::size(Token::rendered(tokens, i, n)) <= offset
                &&& offset < whole - Token::size(Token::rendered(tokens, i + 1, n))
            }),
        decreases tokens.len() - at,
    {
        let n = tokens.len() as int;
        if at < n {
            let text = tokens[at].0;
            let rest = Token::rendered(tokens, at + 1, n);
            if at + 1 == n {
                assert(Token::size(rest) == 0);
            } else if tokens[at].1 {
                Token::lemma_size_adds_up(text, rest);
            } else {
                Token::lemma_size_adds_up(text + seq![' '], rest);
                Token::lemma_size_adds_up(text, seq![' ']);
                vstd::utf8::is_ascii_chars_encode_utf8(seq![' ']);
            }
            let step = Token::step(tokens, at);
            if offset >= step {
                Token::law_bytes_lie_in_their_token(tokens, at + 1, offset - step);
            }
        }
    }

    /// Find the token where `bytes` of the text of the tokens from `at` on begin.
    pub fn find(tokens: &Vec<Token>, at: usize, bytes: Range<usize>) -> (r: usize)
        requires
            at <= tokens@.len(),
        ensures
            r == Token::place_of(
                Token::views(tokens@),
                at as int,
                bytes.start as int,
                bytes.end as int,
            ),
            at <= r <= tokens@.len(),
    {
        let ghost views = Token::views(tokens@);
        let n: usize = tokens.len();
        if bytes.start >= bytes.end {
            return n;
        }
        let mut i: usize = at;
        let mut offset: usize = bytes.start;
        while i < n
            invariant
                at <= i <= n,
                n == tokens@.len(),
                views == Token::views(tokens@),
                Token::holding(views, i as int, offset as int) == Token::holding(
                    views,
                    at as int,
                    bytes.start as int,
                ),
                bytes.start < bytes.end,
            decreases n - i,
        {
            assert(views[i as int] == tokens@[i as int]@);
            let size: usize = tokens[i].text.as_str().as_bytes().len();
            if offset < size {
                return i;
            }
            offset = offset - size;
            if !tokens[i].joint && n - i > 1 {
                if offset == 0 {
                    return i;
                }
                offset = offset - 1;
            }
            i = i + 1;
        }
        n
    }

    /// Write out the tokens from `at` to `end`.
    pub fn render(tokens: &Vec<Token>, at: usize, end: usize) -> (r: String)
        requires
            at <= end <= tokens@.len(),
        ensures
            r@ == Token::rendered(Token::views(tokens@), at as int, end as int),
    {
        let ghost views = Token::views(tokens@);
        let mut text: String = String::new();
        let mut i: usize = at;
        proof {
            reveal_strlit(" ");
        }
        while i < end
            invariant
                at <= i <= end <= tokens@.len(),
                views == Token::views(tokens@),
                " "@ == seq![' '],
                text@ + Token::rendered(views, i as int, end as int) == Token::rendered(
                    views,
                    at as int,
                    end as int,
                ),
            decreases end - i,
        {
            let ghost before = text@;
            text.append(tokens[i].text.as_str());
            if !tokens[i].joint && end - i > 1 {
                text.append(" ");
            }
            i = i + 1;
            proof {
                assert(views[i - 1] == tokens@[i - 1]@);
                assert(text@ + Token::rendered(views, i as int, end as int) =~= before
                    + Token::rendered(views, i - 1, end as int));
            }
        }
        text
    }
}

/// `text` read as an identifier, or the reason why it is none.
pub uninterp spec fn parsed_ident(text: Seq<char>) -> Result<Seq<char>, Seq<char>>;

/// Where the token behind the expression that `text` starts with begins and ends,
/// or the reason why it starts with none, and where that shows; in bytes, and zero
/// twice for the end of the text.
pub uninterp spec fn expr_prefix(text: Seq<char>) -> Result<(int, int), (Seq<char>, (int, int))>;

/// Value and suffix of `text` read as a string literal, or the reason why it is
/// none.
pub uninterp spec fn parsed_str(text: Seq<char>) -> Result<(Seq<char>, Seq<char>), Seq<char>>;

/// Name and parameters of the function that `item` defines, or the reason why it
/// defines none.
pub uninterp spec fn parsed_fn(item: Seq<char>) -> Result<(Seq<char>, Seq<Input>), Seq<char>>;

/// An ASCII character in upper case.
pub open spec fn ascii_upper(c: char) -> char {
    if 'a' <= c && c <= 'z' {
        (c as u32 - 32) as char
    } else {
        c
    }
}

/// Every character of `text` is ASCII.
pub open spec fn is_ascii_text(text: Seq<char>) -> bool {
    forall|i: int| 0 <= i < text.len() ==> (#[trigger] text[i] as u32) < 128
}

/// An ASCII text in upper case.
pub open spec fn ascii_uppercase(text: Seq<char>) -> Seq<char> {
    text.map_values(|c: char| ascii_upper(c))
}

/// `text` in upper case.
pub uninterp spec fn uppercase(text: Seq<char>) -> Seq<char>;

/// Read `text` as an identifier.
///
/// Calls `syn::parse_str` for `syn::Ident`, which accepts a single identifier
/// that is not a keyword. The calls of `proc_macro2::fallback` around it make
/// `proc_macro2` split the text by itself, inside a macro as elsewhere, and go
/// back to its own choice afterwards. That choice is one for the whole process:
/// a thread that changes it in between is left out of account. So is a thread on
/// which `proc_macro2` has split 4 GiB of text, all of which it keeps. The result
/// is taken as a function of the text.
#[verifier::external_body]
pub(crate) fn parse_ident(text: &str) -> (r: Result<String, String>)
    ensures
        match r {
            Ok(ident) => parsed_ident(text@) == Ok::<Seq<char>, Seq<char>>(ident@),
            Err(e) => parsed_ident(text@) == Err::<Seq<char>, Seq<char>>(e@),
        },
{
    proc_macro2::fallback::force();
    let r = match syn::parse_str::<syn::Ident>(text) {
        Ok(ident) => Ok(ident.to_string()),
        Err(e) => Err(e.to_string()),
    };
    proc_macro2::fallback::unforce();
    r
}

/// Read the expression that `text` starts with, and return where the next token
/// stands.
///
/// Calls the `syn::Expr` parser on the front of `text`, which `proc_macro2` splits
/// into tokens by itself as for `parse_ident`; `ParseBuffer::span` then gives the
/// next token and `syn::Error::span` the one that an error is about. Their
/// `Span::byte_range` counts from the start of `text`, and is empty at its end.
/// The result is taken as a function of the text.
#[verifier::external_body]
pub(crate) fn parse_expr_prefix(text: &str) -> (r: Result<Range<usize>, (String, Range<usize>)>)
    ensures
        match r {
            Ok(next) => expr_prefix(text@) == Ok::<(int, int), (Seq<char>, (int, int))>(
                (next.start as int, next.end as int),
            ),
            Err((e, at)) => expr_prefix(text@) == Err::<(int, int), (Seq<char>, (int, int))>(
                (e@, (at.start as int, at.end as int)),
            ),
        },
{
    proc_macro2::fallback::force();
    let parser = |input: ParseStream| -> syn::Result<(syn::Expr, Span, TokenStream)> {
        Ok((input.parse()?, input.span(), input.parse()?))
    };
    let r = match parser.parse_str(text) {
        Ok((_, next, _)) => Ok(next.byte_range()),
        Err(e) => Err((e.to_string(), e.span().byte_range())),
    };
    proc_macro2::fallback::unforce();
    r
}

/// Read `text` as a string literal.
///
/// Calls `syn::parse_str` for `syn::LitStr`, `LitStr::value` and
/// `LitStr::suffix`; `proc_macro2` splits the text by itself as for `parse_ident`.
/// The result is taken as a function of the text.
#[verifier::external_body]
pub(crate) fn parse_str_literal(text: &str) -> (r: Result<StrLit, String>)
    ensures
        match r {
            Ok(literal) => parsed_str(text@) == Ok::<(Seq<char>, Seq<char>), Seq<char>>(literal@),
            Err(e) => parsed_str(text@) == Err::<(Seq<char>, Seq<char>), Seq<char>>(e@),
        },
{
    proc_macro2::fallback::force();
    let r = match syn::parse_str::<syn::LitStr>(text) {
        Ok(lit) => Ok(StrLit { value: lit.value(), suffix: lit.suffix().to_string() }),
        Err(e) => Err(e.to_string()),
    };
    proc_macro2::fallback::unforce();
    r
}

/// Read name and parameters of the function that `item` defines.
///
/// Calls `syn::parse_str` for `syn::ItemFn`; `proc_macro2` splits the text by
/// itself as for `parse_ident`. The result is taken as a function of the text.
#[verifier::external_body]
pub(crate) fn parse_signature(item: &str) -> (r: Result<Signature, String>)
    ensures
        match r {
            Ok(s) => parsed_fn(item@) == Ok::<(Seq<char>, Seq<Input>), Seq<char>>(
                (s.name@, s.inputs@),
            ),
            Err(e) => parsed_fn(item@) == Err::<(Seq<char>, Seq<Input>), Seq<char>>(e@),
        },
{
    proc_macro2::fallback::force();
    let parsed = syn::parse_str::<syn::ItemFn>(item);
    proc_macro2::fallback::unforce();
    let sig = parsed.map_err(|e| e.to_string())?.sig;
    let mut inputs = Vec::new();
    for input in &sig.inputs {
        inputs.push(match input {
            syn::FnArg::Receiver(_) => Input::Receiver,
            syn::FnArg::Typed(p) if matches!(&*p.ty, syn::Type::Reference(_)) => Input::Reference,
            syn::FnArg::Typed(_) => Input::Value,
        });
    }
    Ok(Signature { name: sig.ident.to_string(), inputs })
}

/// Convert `text` to upper case.
///
/// Calls `str::to_uppercase`; its result is taken as a function of the text. Of
/// an ASCII text it converts each letter by itself.
#[verifier::external_body]
pub(crate) fn to_uppercase(text: &str) -> (r: String)
    ensures
        r@ == uppercase(text@),
        is_ascii_text(text@) ==> r@ == ascii_uppercase(text@),
{
    text.to_uppercase()
}

} // verus!
