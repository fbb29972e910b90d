//! Expressions over tags: what a pass draws.
//!
//! The grammar is the usual one: `!`, `&&`, `||`, brackets, and `*` for
//! everything.

use vstd::prelude::*;

use crate::tags::Tags;
use crate::text;
use crate::text::{chars_of, is_digit_char, is_letter_char, is_space_char, text_of};

verus! {

/// What a thing has to be tagged with to be drawn.
#[derive(Debug, PartialEq)]
pub enum TagExpr {
    /// Anything matches.
    Always,
    /// Nothing matches.
    Never,
    /// What carries this tag matches.
    Tag(String),
    /// What the inner expression does not match.
    Not(Box<TagExpr>),
    /// What both match.
    And(Box<TagExpr>, Box<TagExpr>),
    /// What either matches.
    Or(Box<TagExpr>, Box<TagExpr>),
}

/// What a [`TagExpr`] stands for.
#[verifier::ext_equal]
pub enum TagExprView {
    /// Anything matches.
    Always,
    /// Nothing matches.
    Never,
    /// What carries this tag matches.
    Tag(Seq<char>),
    /// What the inner expression does not match.
    Not(Box<TagExprView>),
    /// What both match.
    And(Box<TagExprView>, Box<TagExprView>),
    /// What either matches.
    Or(Box<TagExprView>, Box<TagExprView>),
}

impl TagExpr {
    /// What an expression stands for.
    pub open spec fn meaning(self) -> TagExprView
        decreases self,
    {
        match self {
            TagExpr::Always => TagExprView::Always,
            TagExpr::Never => TagExprView::Never,
            TagExpr::Tag(tag) => TagExprView::Tag(tag@),
            TagExpr::Not(x) => TagExprView::Not(Box::new(x.meaning())),
            TagExpr::And(a, b) => TagExprView::And(Box::new(a.meaning()), Box::new(b.meaning())),
            TagExpr::Or(a, b) => TagExprView::Or(Box::new(a.meaning()), Box::new(b.meaning())),
        }
    }
}

impl View for TagExpr {
    type V = TagExprView;

    open spec fn view(&self) -> TagExprView {
        self.meaning()
    }
}

impl Clone for TagExpr {
    fn clone(&self) -> (r: Self)
        ensures
            r@ == self@,
        decreases self,
    {
        match self {
            TagExpr::Always => TagExpr::Always,
            TagExpr::Never => TagExpr::Never,
            TagExpr::Tag(tag) => TagExpr::Tag(tag.clone()),
            TagExpr::Not(x) => TagExpr::Not(Box::new((&**x).clone())),
            TagExpr::And(a, b) => TagExpr::And(
                Box::new((&**a).clone()),
                Box::new((&**b).clone()),
            ),
            TagExpr::Or(a, b) => TagExpr::Or(Box::new((&**a).clone()), Box::new((&**b).clone())),
        }
    }
}

impl Default for TagExpr {
    fn default() -> (r: Self)
        ensures
            r@ == TagExprView::Always,
    {
        TagExpr::Always
    }
}

/// Whether these tags match an expression.
pub open spec fn selects(e: TagExprView, tags: Set<Seq<char>>) -> bool
    decreases e,
{
    match e {
        TagExprView::Always => true,
        TagExprView::Never => false,
        TagExprView::Tag(tag) => tags.contains(tag),
        TagExprView::Not(x) => !selects(*x, tags),
        TagExprView::And(a, b) => selects(*a, tags) && selects(*b, tags),
        TagExprView::Or(a, b) => selects(*a, tags) || selects(*b, tags),
    }
}

/// In brackets.
pub open spec fn bracketed(s: Seq<char>) -> Seq<char> {
    "("@ + s + ")"@
}

/// An expression as text, with brackets wherever it would otherwise read as
/// another.
pub open spec fn shown(e: TagExprView) -> Seq<char>
    decreases e,
{
    match e {
        TagExprView::Always => "*"@,
        TagExprView::Never => "!*"@,
        TagExprView::Tag(tag) => tag,
        TagExprView::Not(x) => if *x is And || *x is Or {
            "!"@ + bracketed(shown(*x))
        } else {
            "!"@ + shown(*x)
        },
        TagExprView::And(a, b) => (if *a is Or {
            bracketed(shown(*a))
        } else {
            shown(*a)
        }) + " && "@ + (if *b is Or {
            bracketed(shown(*b))
        } else {
            shown(*b)
        }),
        TagExprView::Or(a, b) => shown(*a) + " || "@ + shown(*b),
    }
}

/// Put a text in brackets.
fn in_brackets(s: &str) -> (r: String)
    ensures
        r@ == bracketed(s@),
{
    let mut r = "(".to_owned();
    r.append(s);
    r.append(")");
    r
}

impl TagExpr {
    /// What carries a tag.
    pub fn tag(tag: &str) -> (r: Self)
        ensures
            r@ == TagExprView::Tag(tag@),
    {
        TagExpr::Tag(tag.to_owned())
    }

    /// What both match.
    pub fn and(self, other: TagExpr) -> (r: Self)
        ensures
            r@ == TagExprView::And(Box::new(self@), Box::new(other@)),
    {
        TagExpr::And(Box::new(self), Box::new(other))
    }

    /// What either matches.
    pub fn or(self, other: TagExpr) -> (r: Self)
        ensures
            r@ == TagExprView::Or(Box::new(self@), Box::new(other@)),
    {
        TagExpr::Or(Box::new(self), Box::new(other))
    }

    /// What this does not match.
    pub fn not(self) -> (r: Self)
        ensures
            r@ == TagExprView::Not(Box::new(self@)),
    {
        TagExpr::Not(Box::new(self))
    }

    /// Whether these tags match.
    pub fn matches(&self, tags: &Tags) -> (r: bool)
        ensures
            r == selects(self@, tags@),
        decreases self,
    {
        match self {
            TagExpr::Always => true,
            TagExpr::Never => false,
            TagExpr::Tag(tag) => tags.contains(tag.as_str()),
            TagExpr::Not(x) => !x.matches(tags),
            TagExpr::And(a, b) => a.matches(tags) && b.matches(tags),
            TagExpr::Or(a, b) => a.matches(tags) || b.matches(tags),
        }
    }

    fn is_and(&self) -> (r: bool)
        ensures
            r == (self@ is And),
    {
        match self {
            TagExpr::And(_, _) => true,
            _ => false,
        }
    }

    fn is_or(&self) -> (r: bool)
        ensures
            r == (self@ is Or),
    {
        match self {
            TagExpr::Or(_, _) => true,
            _ => false,
        }
    }

    /// The expression as text.
    pub fn text(&self) -> (r: String)
        ensures
            r@ == shown(self@),
        decreases self,
    {
        match self {
            TagExpr::Always => "*".to_owned(),
            TagExpr::Never => "!*".to_owned(),
            TagExpr::Tag(tag) => tag.clone(),
            TagExpr::Not(x) => {
                let inner = x.text();
                let mut out = "!".to_owned();
                if x.is_and() || x.is_or() {
                    out.append(in_brackets(inner.as_str()).as_str());
                } else {
                    out.append(inner.as_str());
                }
                out
            },
            TagExpr::And(a, b) => {
                let left = a.text();
                let right = b.text();
                let mut out = if a.is_or() {
                    in_brackets(left.as_str())
                } else {
                    left
                };
                out.append(" && ");
                if b.is_or() {
                    out.append(in_brackets(right.as_str()).as_str());
                } else {
                    out.append(right.as_str());
                }
                out
            },
            TagExpr::Or(a, b) => {
                let mut out = a.text();
                out.append(" || ");
                out.append(b.text().as_str());
                out
            },
        }
    }
}

/// Why a text is no expression over tags.
#[derive(Clone, Copy, Debug, PartialEq, Eq, Structural)]
pub enum TagExprError {
    /// A character that no tag, operator or bracket has.
    UnexpectedCharacter(char),
    /// A `&` or `|` that is not doubled.
    SingleOperator(char),
    /// The text ended, or an operator stood, where a tag was expected.
    ExpectedOperand,
    /// A bracket that is not closed.
    UnclosedBracket,
    /// Text after the expression.
    Trailing,
}

/// The message of an error.
pub open spec fn tag_error_text(e: TagExprError) -> Seq<char> {
    match e {
        TagExprError::UnexpectedCharacter(c) => "`"@.push(c)
            + "` is not valid in a tag expression"@,
        TagExprError::SingleOperator(c) => "write `"@.push(c).push(c) + "`, not `"@.push(c)
            + "`"@,
        TagExprError::ExpectedOperand => "expected a tag here"@,
        TagExprError::UnclosedBracket => "unclosed `(`"@,
        TagExprError::Trailing => "unexpected text after the expression"@,
    }
}

impl TagExprError {
    /// The message of the error.
    pub fn text(&self) -> (r: String)
        ensures
            r@ == tag_error_text(*self),
    {
        match self {
            TagExprError::UnexpectedCharacter(c) => {
                let mut out = "`".to_owned();
                out.push(*c);
                out.append("` is not valid in a tag expression");
                out
            },
            TagExprError::SingleOperator(c) => {
                let mut out = "write `".to_owned();
                out.push(*c);
                out.push(*c);
                let mut tail = "`, not `".to_owned();
                tail.push(*c);
                out.append(tail.as_str());
                out.append("`");
                out
            },
            TagExprError::ExpectedOperand => "expected a tag here".to_owned(),
            TagExprError::UnclosedBracket => "unclosed `(`".to_owned(),
            TagExprError::Trailing => "unexpected text after the expression".to_owned(),
        }
    }
}

// ---------------------------------------------------------------------------
// Tokens

/// Whether a character is a letter or a number in any script, as
/// `char::is_alphanumeric` answers it.
pub uninterp spec fn alphanumeric(c: char) -> bool;

/// `char::is_alphanumeric` answers by the character alone, from the tables of
/// Unicode.
pub assume_specification[ char::is_alphanumeric ](c: char) -> (r: bool)
    ensures
        r == alphanumeric(c),
;

/// What a tag is spelled with: letters, digits, `_`, `.` and `-`; never white
/// space.
pub open spec fn tag_char(c: char) -> bool {
    if (c as u32) < 0x80 {
        text::letter_char(c) || text::digit_char(c) || c == '_' || c == '.' || c == '-'
    } else {
        alphanumeric(c) && !text::space_char(c)
    }
}

/// Whether a tag can be spelled with a character.
fn is_tag_char(c: char) -> (r: bool)
    ensures
        r == tag_char(c),
{
    let n: u32 = c as u32;
    if n < 0x80 {
        is_letter_char(c) || is_digit_char(c) || c == '_' || c == '.' || c == '-'
    } else {
        c.is_alphanumeric() && !is_space_char(c)
    }
}

/// What an expression is made of.
#[verifier::ext_equal]
pub enum TokenView {
    /// A tag.
    Tag(Seq<char>),
    /// `*`
    Star,
    /// `!`
    Not,
    /// `&&`
    And,
    /// `||`
    Or,
    /// `(`
    Open,
    /// `)`
    Close,
}

/// What an expression is made of.
#[derive(Debug, PartialEq)]
enum Token {
    Tag(String),
    Star,
    Not,
    And,
    Or,
    Open,
    Close,
}

impl View for Token {
    type V = TokenView;

    closed spec fn view(&self) -> TokenView {
        match self {
            Token::Tag(tag) => TokenView::Tag(tag@),
            Token::Star => TokenView::Star,
            Token::Not => TokenView::Not,
            Token::And => TokenView::And,
            Token::Or => TokenView::Or,
            Token::Open => TokenView::Open,
            Token::Close => TokenView::Close,
        }
    }
}

/// What a text is made of, or why it cannot be read.
pub type Scan = Result<Seq<TokenView>, TagExprError>;

/// The number of characters at the start that a tag can be spelled with.
pub open spec fn word_len(s: Seq<char>) -> nat
    decreases s.len(),
{
    if s.len() == 0 || !tag_char(s[0]) {
        0
    } else {
        1 + word_len(s.skip(1))
    }
}

/// A word is made of what a tag is spelled with, and ends where that does.
pub proof fn lemma_word_len(s: Seq<char>)
    ensures
        word_len(s) <= s.len(),
        forall|i: int| 0 <= i < word_len(s) ==> tag_char(#[trigger] s[i]),
        word_len(s) < s.len() ==> !tag_char(s[word_len(s) as int]),
    decreases s.len(),
{
    if s.len() > 0 && tag_char(s[0]) {
        lemma_word_len(s.skip(1));
        assert forall|i: int| 0 <= i < word_len(s) implies tag_char(#[trigger] s[i]) by {
            if i > 0 {
                assert(s[i] == s.skip(1)[i - 1]);
            }
        }
    }
}

/// These, and what follows.
pub open spec fn followed(first: Seq<TokenView>, rest: Scan) -> Scan {
    match rest {
        Ok(tokens) => Ok(first + tokens),
        Err(e) => Err(e),
    }
}

/// What a text is made of.
pub open spec fn scanned(s: Seq<char>) -> Scan
    decreases s.len(),
{
    if s.len() == 0 {
        Ok(Seq::empty())
    } else if text::space_char(s[0]) {
        scanned(s.skip(1))
    } else if s[0] == '*' {
        followed(seq![TokenView::Star], scanned(s.skip(1)))
    } else if s[0] == '!' {
        followed(seq![TokenView::Not], scanned(s.skip(1)))
    } else if s[0] == '(' {
        followed(seq![TokenView::Open], scanned(s.skip(1)))
    } else if s[0] == ')' {
        followed(seq![TokenView::Close], scanned(s.skip(1)))
    } else if s[0] == '&' || s[0] == '|' {
        if s.len() > 1 && s[1] == s[0] {
            followed(
                seq![
                    if s[0] == '&' {
                        TokenView::And
                    } else {
                        TokenView::Or
                    },
                ],
                scanned(s.skip(2)),
            )
        } else {
            Err(TagExprError::SingleOperator(s[0]))
        }
    } else if tag_char(s[0]) {
        let n = word_len(s) as int;
        proof {
            lemma_word_len(s);
        }
        followed(seq![TokenView::Tag(s.take(n))], scanned(s.skip(n)))
    } else {
        Err(TagExprError::UnexpectedCharacter(s[0]))
    }
}

proof fn lemma_word_at(s: Seq<char>, i: int, j: int)
    requires
        0 <= i <= j <= s.len(),
        forall|k: int| i <= k < j ==> tag_char(#[trigger] s[k]),
        j < s.len() ==> !tag_char(s[j]),
    ensures
        word_len(s.skip(i)) == j - i,
    decreases j - i,
{
    if i < j {
        lemma_word_at(s, i + 1, j);
        assert(s.skip(i).skip(1) =~= s.skip(i + 1));
        assert(s.skip(i)[0] == s[i]);
    }
}

/// Where the tag that starts at a position ends.
fn end_of_word(chars: &Vec<char>, from: usize) -> (r: usize)
    requires
        from <= chars@.len(),
    ensures
        from <= r <= chars@.len(),
        r - from == word_len(chars@.skip(from as int)),
{
    let mut i: usize = from;
    while i < chars.len() && is_tag_char(chars[i])
        invariant
            from <= i <= chars@.len(),
            forall|k: int| from <= k < i ==> tag_char(#[trigger] chars@[k]),
        decreases chars@.len() - i,
    {
        i += 1;
    }
    proof {
        lemma_word_at(chars@, from as int, i as int);
    }
    i
}

/// What a text is made of.
fn tokenize(text: &str) -> (r: Result<Vec<Token>, TagExprError>)
    ensures
        match (r, scanned(text@)) {
            (Ok(a), Ok(b)) => text::seq_of(a@) == b,
            (Err(a), Err(b)) => a == b,
            _ => false,
        },
{
    let chars = chars_of(text);
    let ghost s = text@;
    let n: usize = chars.len();
    let mut tokens: Vec<Token> = Vec::new();
    let mut i: usize = 0;
    assert(s.skip(0) =~= s);
    assert(text::seq_of(tokens@) =~= Seq::<TokenView>::empty());
    assert(followed(text::seq_of(tokens@), scanned(s)) =~= scanned(s)) by {
        if scanned(s) is Ok {
            assert(text::seq_of(tokens@) + scanned(s)->Ok_0 =~= scanned(s)->Ok_0);
        }
    }
    while i < n
        invariant
            s == chars@,
            s == text@,
            i <= n == s.len(),
            followed(text::seq_of(tokens@), scanned(s.skip(i as int))) == scanned(s),
        decreases n - i,
    {
        let ghost here = s.skip(i as int);
        let ghost before = text::seq_of(tokens@);
        let c = chars[i];
        assert(here[0] == c);
        let mut next: usize = i + 1;
        if is_space_char(c) {
            assert(here.skip(1) =~= s.skip(next as int));
            assert(scanned(here) == scanned(s.skip(next as int)));
            i = next;
            continue;
        }
        let token = if c == '*' {
            Token::Star
        } else if c == '!' {
            Token::Not
        } else if c == '(' {
            Token::Open
        } else if c == ')' {
            Token::Close
        } else if c == '&' || c == '|' {
            if i + 1 < n {
                assert(here[1] == s[i + 1]);
            }
            if i + 1 >= n || chars[i + 1] != c {
                return Err(TagExprError::SingleOperator(c));
            }
            next = i + 2;
            if c == '&' {
                Token::And
            } else {
                Token::Or
            }
        } else if is_tag_char(c) {
            next = end_of_word(&chars, i);
            proof {
                lemma_word_len(here);
            }
            assert(s.subrange(i as int, next as int) =~= here.take(next - i));
            Token::Tag(text_of(&chars, i, next))
        } else {
            return Err(TagExprError::UnexpectedCharacter(c));
        };
        assert(here.skip(next - i) =~= s.skip(next as int));
        assert(scanned(here) == followed(seq![token@], scanned(s.skip(next as int))));
        tokens.push(token);
        proof {
            let after = scanned(s.skip(next as int));
            assert(text::seq_of(tokens@) =~= before.push(token@));
            if after is Ok {
                assert(before + (seq![token@] + after->Ok_0) =~= before.push(token@)
                    + after->Ok_0);
            }
        }
        i = next;
    }
    proof {
        assert(s.skip(n as int).len() == 0);
        assert(text::seq_of(tokens@) + Seq::<TokenView>::empty() =~= text::seq_of(tokens@));
    }
    Ok(tokens)
}

// ---------------------------------------------------------------------------
// Parsing

/// What is read from a position on and where that ends, or why nothing is.
pub type Reading = Result<(TagExprView, int), TagExprError>;

/// Whether `token` stands at a position.
pub open spec fn stands(t: Seq<TokenView>, at: int, token: TokenView) -> bool {
    0 <= at < t.len() && t[at] == token
}

/// `or := and ('||' and)*`
pub open spec fn read_or(t: Seq<TokenView>, at: int) -> Reading
    decreases t.len() - at, 4int,
{
    match read_and(t, at) {
        Err(e) => Err(e),
        Ok((left, next)) => if at < next <= t.len() {
            more_or(t, left, next)
        } else {
            Ok((left, next))
        },
    }
}

/// `('||' and)*`, after a first operand.
pub open spec fn more_or(t: Seq<TokenView>, left: TagExprView, at: int) -> Reading
    decreases t.len() - at, 0int,
{
    if stands(t, at, TokenView::Or) {
        match read_and(t, at + 1) {
            Err(e) => Err(e),
            Ok((right, next)) => if at < next <= t.len() {
                more_or(t, TagExprView::Or(Box::new(left), Box::new(right)), next)
            } else {
                Ok((left, next))
            },
        }
    } else {
        Ok((left, at))
    }
}

/// `and := unary ('&&' unary)*`
pub open spec fn read_and(t: Seq<TokenView>, at: int) -> Reading
    decreases t.len() - at, 3int,
{
    match read_unary(t, at) {
        Err(e) => Err(e),
        Ok((left, next)) => if at < next <= t.len() {
            more_and(t, left, next)
        } else {
            Ok((left, next))
        },
    }
}

/// `('&&' unary)*`, after a first operand.
pub open spec fn more_and(t: Seq<TokenView>, left: TagExprView, at: int) -> Reading
    decreases t.len() - at, 0int,
{
    if stands(t, at, TokenView::And) {
        match read_unary(t, at + 1) {
            Err(e) => Err(e),
            Ok((right, next)) => if at < next <= t.len() {
                more_and(t, TagExprView::And(Box::new(left), Box::new(right)), next)
            } else {
                Ok((left, next))
            },
        }
    } else {
        Ok((left, at))
    }
}

/// `unary := '!' unary | atom`
pub open spec fn read_unary(t: Seq<TokenView>, at: int) -> Reading
    decreases t.len() - at, 2int,
{
    if stands(t, at, TokenView::Not) {
        match read_unary(t, at + 1) {
            Err(e) => Err(e),
            Ok((inner, next)) => Ok((TagExprView::Not(Box::new(inner)), next)),
        }
    } else {
        read_atom(t, at)
    }
}

/// `atom := tag | '*' | '(' or ')'`
pub open spec fn read_atom(t: Seq<TokenView>, at: int) -> Reading
    decreases t.len() - at, 1int,
{
    if 0 <= at < t.len() {
        match t[at] {
            TokenView::Tag(tag) => Ok((TagExprView::Tag(tag), at + 1)),
            TokenView::Star => Ok((TagExprView::Always, at + 1)),
            TokenView::Open => match read_or(t, at + 1) {
                Err(e) => Err(e),
                Ok((inner, next)) => if stands(t, next, TokenView::Close) {
                    Ok((inner, next + 1))
                } else {
                    Err(TagExprError::UnclosedBracket)
                },
            },
            _ => Err(TagExprError::ExpectedOperand),
        }
    } else {
        Err(TagExprError::ExpectedOperand)
    }
}

/// What a text stands for as an expression, or why it is none.
pub open spec fn parsed(s: Seq<char>) -> Result<TagExprView, TagExprError> {
    match scanned(s) {
        Err(e) => Err(e),
        Ok(t) => match read_or(t, 0) {
            Err(e) => Err(e),
            Ok((e, next)) => if next == t.len() {
                Ok(e)
            } else {
                Err(TagExprError::Trailing)
            },
        },
    }
}

/// Whether what a function answered is this reading, which moves on.
spec fn reads(
    r: Result<(TagExpr, usize), TagExprError>,
    reading: Reading,
    at: usize,
    len: nat,
) -> bool {
    match (r, reading) {
        (Ok((e, next)), Ok((v, end))) => e@ == v && next == end && at < next <= len,
        (Err(a), Err(b)) => a == b,
        _ => false,
    }
}

/// Whether an operator stands at a position.
fn has_token(tokens: &Vec<Token>, at: usize, token: &Token) -> (r: bool)
    requires
        !(token is Tag),
    ensures
        r == stands(text::seq_of(tokens@), at as int, token@),
        r ==> at < tokens.len(),
{
    if at >= tokens.len() {
        return false;
    }
    assert(text::seq_of(tokens@)[at as int] == tokens@[at as int]@);
    match (&tokens[at], token) {
        (Token::Star, Token::Star) => true,
        (Token::Not, Token::Not) => true,
        (Token::And, Token::And) => true,
        (Token::Or, Token::Or) => true,
        (Token::Open, Token::Open) => true,
        (Token::Close, Token::Close) => true,
        _ => false,
    }
}

/// Read `and ('||' and)*`.
fn expression(tokens: &Vec<Token>, at: usize) -> (r: Result<(TagExpr, usize), TagExprError>)
    requires
        at <= tokens@.len(),
    ensures
        reads(r, read_or(text::seq_of(tokens@), at as int), at, tokens@.len()),
    decreases tokens@.len() - at, 4int,
{
    let ghost t = text::seq_of(tokens@);
    let (first, end) = match conjunction(tokens, at) {
        Ok(x) => x,
        Err(e) => {
            return Err(e);
        },
    };
    let mut left = first;
    let mut next: usize = end;
    while has_token(tokens, next, &Token::Or)
        invariant
            t == text::seq_of(tokens@),
            at < next <= t.len() == tokens@.len(),
            more_or(t, left@, next as int) == read_or(t, at as int),
        decreases t.len() - next,
    {
        match conjunction(tokens, next + 1) {
            Ok((right, end)) => {
                left = left.or(right);
                next = end;
            },
            Err(e) => {
                return Err(e);
            },
        }
    }
    Ok((left, next))
}

/// Read `unary ('&&' unary)*`.
fn conjunction(tokens: &Vec<Token>, at: usize) -> (r: Result<(TagExpr, usize), TagExprError>)
    requires
        at <= tokens@.len(),
    ensures
        reads(r, read_and(text::seq_of(tokens@), at as int), at, tokens@.len()),
    decreases tokens@.len() - at, 3int,
{
    let ghost t = text::seq_of(tokens@);
    let (first, end) = match unary(tokens, at) {
        Ok(x) => x,
        Err(e) => {
            return Err(e);
        },
    };
    let mut left = first;
    let mut next: usize = end;
    while has_token(tokens, next, &Token::And)
        invariant
            t == text::seq_of(tokens@),
            at < next <= t.len() == tokens@.len(),
            more_and(t, left@, next as int) == read_and(t, at as int),
        decreases t.len() - next,
    {
        match unary(tokens, next + 1) {
            Ok((right, end)) => {
                left = left.and(right);
                next = end;
            },
            Err(e) => {
                return Err(e);
            },
        }
    }
    Ok((left, next))
}

/// Read `'!' unary | atom`.
fn unary(tokens: &Vec<Token>, at: usize) -> (r: Result<(TagExpr, usize), TagExprError>)
    requires
        at <= tokens@.len(),
    ensures
        reads(r, read_unary(text::seq_of(tokens@), at as int), at, tokens@.len()),
    decreases tokens@.len() - at, 2int,
{
    assert(text::seq_of(tokens@).len() == tokens@.len());
    if has_token(tokens, at, &Token::Not) {
        match unary(tokens, at + 1) {
            Ok((inner, next)) => Ok((inner.not(), next)),
            Err(e) => Err(e),
        }
    } else {
        atom(tokens, at)
    }
}

/// Read `tag | '*' | '(' or ')'`.
fn atom(tokens: &Vec<Token>, at: usize) -> (r: Result<(TagExpr, usize), TagExprError>)
    requires
        at <= tokens@.len(),
    ensures
        reads(r, read_atom(text::seq_of(tokens@), at as int), at, tokens@.len()),
    decreases tokens@.len() - at, 1int,
{
    assert(text::seq_of(tokens@).len() == tokens@.len());
    if at >= tokens.len() {
        return Err(TagExprError::ExpectedOperand);
    }
    assert(text::seq_of(tokens@)[at as int] == tokens@[at as int]@);
    match &tokens[at] {
        Token::Tag(tag) => Ok((TagExpr::Tag(tag.clone()), at + 1)),
        Token::Star => Ok((TagExpr::Always, at + 1)),
        Token::Open => match expression(tokens, at + 1) {
            Ok((inner, next)) => if has_token(tokens, next, &Token::Close) {
                Ok((inner, next + 1))
            } else {
                Err(TagExprError::UnclosedBracket)
            },
            Err(e) => Err(e),
        },
        _ => Err(TagExprError::ExpectedOperand),
    }
}

impl TagExpr {
    /// Read an expression: `opaque && !outlined`, `*`, `a || (b && c)`.
    pub fn parse(text: &str) -> (r: Result<Self, TagExprError>)
        ensures
            match (r, parsed(text@)) {
                (Ok(a), Ok(b)) => a@ == b,
                (Err(a), Err(b)) => a == b,
                _ => false,
            },
    {
        let tokens = match tokenize(text) {
            Ok(t) => t,
            Err(e) => {
                return Err(e);
            },
        };
        assert(text::seq_of(tokens@).len() == tokens@.len());
        match expression(&tokens, 0) {
            Ok((e, next)) => if next == tokens.len() {
                Ok(e)
            } else {
                Err(TagExprError::Trailing)
            },
            Err(e) => Err(e),
        }
    }
}

} // verus!
