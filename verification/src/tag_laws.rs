//! What holds between the text of an expression over tags and the expression.

use vstd::prelude::*;

use crate::tag_expr;
use crate::tag_expr::{Reading, Scan, TagExprError, TagExprView, TokenView};

verus! {

/// Whether a tag can be written down.
pub open spec fn spellable(tag: Seq<char>) -> bool {
    &&& tag.len() > 0
    &&& forall|i: int| 0 <= i < tag.len() ==> tag_expr::tag_char(#[trigger] tag[i])
}

/// Whether every tag of an expression can be written down.
pub open spec fn all_spellable(e: TagExprView) -> bool
    decreases e,
{
    match e {
        TagExprView::Always => true,
        TagExprView::Never => true,
        TagExprView::Tag(tag) => spellable(tag),
        TagExprView::Not(x) => all_spellable(*x),
        TagExprView::And(a, b) => all_spellable(*a) && all_spellable(*b),
        TagExprView::Or(a, b) => all_spellable(*a) && all_spellable(*b),
    }
}

spec fn bracketed_tokens(t: Seq<TokenView>) -> Seq<TokenView> {
    seq![TokenView::Open] + t + seq![TokenView::Close]
}

/// What the text of an expression is made of.
spec fn tokens_of(e: TagExprView) -> Seq<TokenView>
    decreases e,
{
    match e {
        TagExprView::Always => seq![TokenView::Star],
        TagExprView::Never => seq![TokenView::Not, TokenView::Star],
        TagExprView::Tag(tag) => seq![TokenView::Tag(tag)],
        TagExprView::Not(x) => seq![TokenView::Not] + (if *x is And || *x is Or {
            bracketed_tokens(tokens_of(*x))
        } else {
            tokens_of(*x)
        }),
        TagExprView::And(a, b) => (if *a is Or {
            bracketed_tokens(tokens_of(*a))
        } else {
            tokens_of(*a)
        }) + seq![TokenView::And] + (if *b is Or {
            bracketed_tokens(tokens_of(*b))
        } else {
            tokens_of(*b)
        }),
        TagExprView::Or(a, b) => tokens_of(*a) + seq![TokenView::Or] + tokens_of(*b),
    }
}

// ---------------------------------------------------------------------------
// Scanning

/// Whether a tag that stands before this text ends there.
spec fn parts(rest: Seq<char>) -> bool {
    rest.len() == 0 || !tag_expr::tag_char(rest[0])
}

proof fn lemma_followed(a: Seq<TokenView>, b: Seq<TokenView>, r: Scan)
    ensures
        tag_expr::followed(a, tag_expr::followed(b, r)) == tag_expr::followed(a + b, r),
{
    if r is Ok {
        assert(a + (b + r->Ok_0) =~= (a + b) + r->Ok_0);
    }
}

proof fn lemma_scan_sign(c: char, rest: Seq<char>)
    requires
        c == '*' || c == '!' || c == '(' || c == ')',
    ensures
        tag_expr::scanned(seq![c] + rest) == tag_expr::followed(
            seq![
                if c == '*' {
                    TokenView::Star
                } else if c == '!' {
                    TokenView::Not
                } else if c == '(' {
                    TokenView::Open
                } else {
                    TokenView::Close
                },
            ],
            tag_expr::scanned(rest),
        ),
{
    let s = seq![c] + rest;
    assert(s[0] == c);
    assert(s.skip(1) =~= rest);
}

proof fn lemma_scan_operator(c: char, rest: Seq<char>)
    requires
        c == '&' || c == '|',
    ensures
        tag_expr::scanned(seq![' ', c, c, ' '] + rest) == tag_expr::followed(
            seq![
                if c == '&' {
                    TokenView::And
                } else {
                    TokenView::Or
                },
            ],
            tag_expr::scanned(rest),
        ),
{
    let s = seq![' ', c, c, ' '] + rest;
    let s1 = seq![c, c, ' '] + rest;
    let s3 = seq![' '] + rest;
    assert(s[0] == ' ');
    assert(s.skip(1) =~= s1);
    assert(tag_expr::scanned(s) == tag_expr::scanned(s1));
    assert(s1[0] == c && s1[1] == c);
    assert(s1.skip(2) =~= s3);
    assert(s3[0] == ' ');
    assert(s3.skip(1) =~= rest);
    assert(tag_expr::scanned(s3) == tag_expr::scanned(rest));
}

proof fn lemma_word_then(tag: Seq<char>, rest: Seq<char>)
    requires
        forall|i: int| 0 <= i < tag.len() ==> tag_expr::tag_char(#[trigger] tag[i]),
        parts(rest),
    ensures
        tag_expr::word_len(tag + rest) == tag.len(),
    decreases tag.len(),
{
    let s = tag + rest;
    if tag.len() == 0 {
        assert(s =~= rest);
    } else {
        assert(s[0] == tag[0]);
        assert forall|i: int| 0 <= i < tag.skip(1).len() implies tag_expr::tag_char(
            #[trigger] tag.skip(1)[i],
        ) by {
            assert(tag.skip(1)[i] == tag[i + 1]);
        }
        lemma_word_then(tag.skip(1), rest);
        assert(s.skip(1) =~= tag.skip(1) + rest);
    }
}

proof fn lemma_scan_tag(tag: Seq<char>, rest: Seq<char>)
    requires
        spellable(tag),
        parts(rest),
    ensures
        tag_expr::scanned(tag + rest) == tag_expr::followed(seq![TokenView::Tag(tag)], tag_expr::scanned(rest)),
{
    let s = tag + rest;
    lemma_word_then(tag, rest);
    assert(s[0] == tag[0]);
    assert(tag_expr::tag_char(tag[0]));
    assert(s.take(tag.len() as int) =~= tag);
    assert(s.skip(tag.len() as int) =~= rest);
}

proof fn lemma_scan_bracketed(inner: Seq<char>, tokens: Seq<TokenView>, rest: Seq<char>)
    requires
        tag_expr::scanned(inner + (seq![')'] + rest)) == tag_expr::followed(tokens, tag_expr::scanned(seq![')'] + rest)),
    ensures
        tag_expr::scanned(tag_expr::bracketed(inner) + rest) == tag_expr::followed(bracketed_tokens(tokens), tag_expr::scanned(rest)),
{
    reveal_strlit("(");
    reveal_strlit(")");
    assert("("@ =~= seq!['(']);
    assert(")"@ =~= seq![')']);
    assert(tag_expr::bracketed(inner) + rest =~= seq!['('] + (inner + (seq![')'] + rest)));
    lemma_scan_sign('(', inner + (seq![')'] + rest));
    lemma_scan_sign(')', rest);
    lemma_followed(tokens, seq![TokenView::Close], tag_expr::scanned(rest));
    lemma_followed(
        seq![TokenView::Open],
        tokens + seq![TokenView::Close],
        tag_expr::scanned(rest),
    );
    assert(seq![TokenView::Open] + (tokens + seq![TokenView::Close]) =~= bracketed_tokens(
        tokens,
    ));
}

proof fn lemma_scan_joined(
    left: Seq<char>,
    right: Seq<char>,
    c: char,
    a: Seq<TokenView>,
    b: Seq<TokenView>,
    rest: Seq<char>,
)
    requires
        c == '&' || c == '|',
        tag_expr::scanned(left + (seq![' ', c, c, ' '] + (right + rest))) == tag_expr::followed(
            a,
            tag_expr::scanned(seq![' ', c, c, ' '] + (right + rest)),
        ),
        tag_expr::scanned(right + rest) == tag_expr::followed(b, tag_expr::scanned(rest)),
    ensures
        tag_expr::scanned(left + seq![' ', c, c, ' '] + right + rest) == tag_expr::followed(
            a + seq![
                if c == '&' {
                    TokenView::And
                } else {
                    TokenView::Or
                },
            ] + b,
            tag_expr::scanned(rest),
        ),
{
    let op = seq![
        if c == '&' {
            TokenView::And
        } else {
            TokenView::Or
        },
    ];
    assert(left + seq![' ', c, c, ' '] + right + rest =~= left + (seq![' ', c, c, ' '] + (right
        + rest)));
    lemma_scan_operator(c, right + rest);
    lemma_followed(op, b, tag_expr::scanned(rest));
    lemma_followed(a, op + b, tag_expr::scanned(rest));
    assert(a + (op + b) =~= a + op + b);
}

/// The text of an expression is made of its tokens, whatever follows.
proof fn lemma_scan_shown(e: TagExprView, rest: Seq<char>)
    requires
        all_spellable(e),
        parts(rest),
    ensures
        tag_expr::scanned(tag_expr::shown(e) + rest) == tag_expr::followed(tokens_of(e), tag_expr::scanned(rest)),
    decreases e,
{
    reveal_strlit("*");
    reveal_strlit("!*");
    reveal_strlit("!");
    reveal_strlit(" && ");
    reveal_strlit(" || ");
    assert("!"@ =~= seq!['!']);
    assert(" && "@ =~= seq![' ', '&', '&', ' ']);
    assert(" || "@ =~= seq![' ', '|', '|', ' ']);
    match e {
        TagExprView::Always => {
            assert("*"@ =~= seq!['*']);
            lemma_scan_sign('*', rest);
        },
        TagExprView::Never => {
            assert("!*"@ + rest =~= seq!['!'] + (seq!['*'] + rest));
            lemma_scan_sign('*', rest);
            lemma_scan_sign('!', seq!['*'] + rest);
            lemma_followed(seq![TokenView::Not], seq![TokenView::Star], tag_expr::scanned(rest));
            assert(seq![TokenView::Not] + seq![TokenView::Star] =~= tokens_of(e));
        },
        TagExprView::Tag(tag) => {
            lemma_scan_tag(tag, rest);
        },
        TagExprView::Not(x) => {
            lemma_scan_shown(*x, seq![')'] + rest);
            lemma_scan_shown(*x, rest);
            lemma_scan_bracketed(tag_expr::shown(*x), tokens_of(*x), rest);
            let (inner, tokens) = if *x is And || *x is Or {
                (tag_expr::bracketed(tag_expr::shown(*x)), bracketed_tokens(tokens_of(*x)))
            } else {
                (tag_expr::shown(*x), tokens_of(*x))
            };
            assert(tag_expr::shown(e) + rest =~= seq!['!'] + (inner + rest));
            lemma_scan_sign('!', inner + rest);
            lemma_followed(seq![TokenView::Not], tokens, tag_expr::scanned(rest));
        },
        TagExprView::And(a, b) => {
            lemma_scan_shown(*b, seq![')'] + rest);
            lemma_scan_shown(*b, rest);
            lemma_scan_bracketed(tag_expr::shown(*b), tokens_of(*b), rest);
            let (right, right_tokens) = if *b is Or {
                (tag_expr::bracketed(tag_expr::shown(*b)), bracketed_tokens(tokens_of(*b)))
            } else {
                (tag_expr::shown(*b), tokens_of(*b))
            };
            let tail = seq![' ', '&', '&', ' '] + (right + rest);
            lemma_scan_shown(*a, seq![')'] + tail);
            lemma_scan_shown(*a, tail);
            lemma_scan_bracketed(tag_expr::shown(*a), tokens_of(*a), tail);
            let (left, left_tokens) = if *a is Or {
                (tag_expr::bracketed(tag_expr::shown(*a)), bracketed_tokens(tokens_of(*a)))
            } else {
                (tag_expr::shown(*a), tokens_of(*a))
            };
            lemma_scan_joined(left, right, '&', left_tokens, right_tokens, rest);
        },
        TagExprView::Or(a, b) => {
            lemma_scan_shown(*b, rest);
            lemma_scan_shown(*a, seq![' ', '|', '|', ' '] + (tag_expr::shown(*b) + rest));
            lemma_scan_joined(
                tag_expr::shown(*a),
                tag_expr::shown(*b),
                '|',
                tokens_of(*a),
                tokens_of(*b),
                rest,
            );
        },
    }
}

// ---------------------------------------------------------------------------
// Reading back

/// How far an operand is read through.
pub open spec fn operand_level(e: TagExprView) -> int {
    if e is Or {
        2
    } else if e is And {
        4
    } else {
        1
    }
}

/// How far operands of `&&` are read through.
pub open spec fn and_level(e: TagExprView) -> int {
    if e is Or {
        3
    } else {
        2
    }
}

/// How far operands of `||` are read through.
pub open spec fn or_level(e: TagExprView) -> int {
    if e is Or {
        1
    } else {
        3
    }
}

/// What an operand reads as.
pub open spec fn operand(e: TagExprView) -> TagExprView
    decreases e, operand_level(e),
{
    match e {
        TagExprView::Always => e,
        TagExprView::Never => TagExprView::Not(Box::new(TagExprView::Always)),
        TagExprView::Tag(_) => e,
        TagExprView::Not(x) => TagExprView::Not(Box::new(operand(*x))),
        _ => or_joined(None, e),
    }
}

/// What the operands of `&&` read as, after those read already.
pub open spec fn and_joined(left: Option<TagExprView>, e: TagExprView) -> TagExprView
    decreases e, and_level(e),
{
    match e {
        TagExprView::And(a, b) => and_joined(Some(and_joined(left, *a)), *b),
        _ => match left {
            Some(l) => TagExprView::And(Box::new(l), Box::new(operand(e))),
            None => operand(e),
        },
    }
}

/// What the operands of `||` read as, after those read already.
pub open spec fn or_joined(left: Option<TagExprView>, e: TagExprView) -> TagExprView
    decreases e, or_level(e),
{
    match e {
        TagExprView::Or(a, b) => or_joined(Some(or_joined(left, *a)), *b),
        _ => match left {
            Some(l) => TagExprView::Or(Box::new(l), Box::new(and_joined(None, e))),
            None => and_joined(None, e),
        },
    }
}

/// What the text of an expression reads as: the expression, with a chain of
/// one operator nested to the left, and `!*` for what nothing matches.
pub open spec fn read_back(e: TagExprView) -> TagExprView {
    or_joined(None, e)
}

/// These tokens stand from a position on.
spec fn stand_at(t: Seq<TokenView>, at: int, s: Seq<TokenView>) -> bool {
    0 <= at && at + s.len() <= t.len() && forall|i: int|
        0 <= i < s.len() ==> t[at + i] == #[trigger] s[i]
}

proof fn lemma_stand_parts(
    t: Seq<TokenView>,
    at: int,
    a: Seq<TokenView>,
    b: Seq<TokenView>,
)
    requires
        stand_at(t, at, a + b),
    ensures
        stand_at(t, at, a),
        stand_at(t, at + a.len(), b),
{
    assert forall|i: int| 0 <= i < a.len() implies t[at + i] == #[trigger] a[i] by {
        assert((a + b)[i] == a[i]);
    }
    assert forall|i: int| 0 <= i < b.len() implies t[at + a.len() + i] == #[trigger] b[i] by {
        assert((a + b)[a.len() + i] == b[i]);
    }
}

proof fn lemma_some_token(e: TagExprView)
    ensures
        tokens_of(e).len() > 0,
    decreases e,
{
    match e {
        TagExprView::Or(a, b) => {
            lemma_some_token(*a);
        },
        _ => {},
    }
}

/// What stands for an operand.
spec fn operand_tokens(e: TagExprView) -> Seq<TokenView> {
    if e is And || e is Or {
        bracketed_tokens(tokens_of(e))
    } else {
        tokens_of(e)
    }
}

/// What stands for an operand of `&&`.
spec fn side_tokens(e: TagExprView) -> Seq<TokenView> {
    if e is Or {
        bracketed_tokens(tokens_of(e))
    } else {
        tokens_of(e)
    }
}

proof fn lemma_reads_operand(e: TagExprView, t: Seq<TokenView>, at: int)
    requires
        stand_at(t, at, operand_tokens(e)),
    ensures
        tag_expr::read_unary(t, at) == Reading::Ok((operand(e), at + operand_tokens(e).len())),
    decreases e, operand_level(e) + 10,
{
    match e {
        TagExprView::Always => {
            assert(t[at + 0] == tokens_of(e)[0]);
        },
        TagExprView::Never => {
            assert(t[at + 0] == tokens_of(e)[0]);
            assert(t[at + 1] == tokens_of(e)[1]);
            assert(tag_expr::read_unary(t, at + 1) == tag_expr::read_atom(t, at + 1));
        },
        TagExprView::Tag(_) => {
            assert(t[at + 0] == tokens_of(e)[0]);
        },
        TagExprView::Not(x) => {
            assert(tokens_of(e) =~= seq![TokenView::Not] + operand_tokens(*x));
            lemma_stand_parts(t, at, seq![TokenView::Not], operand_tokens(*x));
            assert(t[at + 0] == seq![TokenView::Not][0]);
            lemma_reads_operand(*x, t, at + 1);
        },
        _ => {
            let inner = tokens_of(e);
            lemma_some_token(e);
            lemma_stand_parts(t, at, seq![TokenView::Open] + inner, seq![TokenView::Close]);
            lemma_stand_parts(t, at, seq![TokenView::Open], inner);
            assert(t[at + 0] == seq![TokenView::Open][0]);
            let close = at + 1 + inner.len();
            assert(t[close + 0] == seq![TokenView::Close][0]);
            lemma_reads_or(e, t, at + 1);
            assert(tag_expr::more_or(t, read_back(e), close) == Reading::Ok((read_back(e), close)));
            assert(tag_expr::read_unary(t, at) == tag_expr::read_atom(t, at));
        },
    }
}

proof fn lemma_reads_and(e: TagExprView, t: Seq<TokenView>, at: int)
    requires
        stand_at(t, at, side_tokens(e)),
    ensures
        tag_expr::read_and(t, at) == tag_expr::more_and(t, and_joined(None, e), at + side_tokens(e).len()),
    decreases e, and_level(e) + 10,
{
    lemma_some_token(e);
    match e {
        TagExprView::And(a, b) => {
            let joint = side_tokens(*a) + seq![TokenView::And];
            lemma_stand_parts(t, at, joint, side_tokens(*b));
            lemma_stand_parts(t, at, side_tokens(*a), seq![TokenView::And]);
            lemma_reads_and(*a, t, at);
            let mid = at + side_tokens(*a).len();
            assert(t[mid + 0] == seq![TokenView::And][0]);
            lemma_reads_more_and(*b, and_joined(None, *a), t, mid);
        },
        _ => {
            assert(side_tokens(e) == operand_tokens(e));
            lemma_reads_operand(e, t, at);
        },
    }
}

proof fn lemma_reads_more_and(e: TagExprView, left: TagExprView, t: Seq<TokenView>, at: int)
    requires
        tag_expr::stands(t, at, TokenView::And),
        stand_at(t, at + 1, side_tokens(e)),
    ensures
        tag_expr::more_and(t, left, at) == tag_expr::more_and(
            t,
            and_joined(Some(left), e),
            at + 1 + side_tokens(e).len(),
        ),
    decreases e, and_level(e) + 10,
{
    lemma_some_token(e);
    match e {
        TagExprView::And(a, b) => {
            let joint = side_tokens(*a) + seq![TokenView::And];
            lemma_stand_parts(t, at + 1, joint, side_tokens(*b));
            lemma_stand_parts(t, at + 1, side_tokens(*a), seq![TokenView::And]);
            lemma_reads_more_and(*a, left, t, at);
            let mid = at + 1 + side_tokens(*a).len();
            assert(t[mid + 0] == seq![TokenView::And][0]);
            lemma_reads_more_and(*b, and_joined(Some(left), *a), t, mid);
        },
        _ => {
            assert(side_tokens(e) == operand_tokens(e));
            lemma_reads_operand(e, t, at + 1);
        },
    }
}

proof fn lemma_reads_or(e: TagExprView, t: Seq<TokenView>, at: int)
    requires
        stand_at(t, at, tokens_of(e)),
        !tag_expr::stands(t, at + tokens_of(e).len(), TokenView::And),
    ensures
        tag_expr::read_or(t, at) == tag_expr::more_or(t, read_back(e), at + tokens_of(e).len()),
    decreases e, or_level(e) + 10,
{
    lemma_some_token(e);
    match e {
        TagExprView::Or(a, b) => {
            let joint = tokens_of(*a) + seq![TokenView::Or];
            lemma_stand_parts(t, at, joint, tokens_of(*b));
            lemma_stand_parts(t, at, tokens_of(*a), seq![TokenView::Or]);
            let mid = at + tokens_of(*a).len();
            assert(t[mid + 0] == seq![TokenView::Or][0]);
            lemma_reads_or(*a, t, at);
            lemma_reads_more_or(*b, or_joined(None, *a), t, mid);
        },
        _ => {
            lemma_reads_and(e, t, at);
        },
    }
}

proof fn lemma_reads_more_or(e: TagExprView, left: TagExprView, t: Seq<TokenView>, at: int)
    requires
        tag_expr::stands(t, at, TokenView::Or),
        stand_at(t, at + 1, tokens_of(e)),
        !tag_expr::stands(t, at + 1 + tokens_of(e).len(), TokenView::And),
    ensures
        tag_expr::more_or(t, left, at) == tag_expr::more_or(
            t,
            or_joined(Some(left), e),
            at + 1 + tokens_of(e).len(),
        ),
    decreases e, or_level(e) + 10,
{
    lemma_some_token(e);
    match e {
        TagExprView::Or(a, b) => {
            let joint = tokens_of(*a) + seq![TokenView::Or];
            lemma_stand_parts(t, at + 1, joint, tokens_of(*b));
            lemma_stand_parts(t, at + 1, tokens_of(*a), seq![TokenView::Or]);
            let mid = at + 1 + tokens_of(*a).len();
            assert(t[mid + 0] == seq![TokenView::Or][0]);
            lemma_reads_more_or(*a, left, t, at);
            lemma_reads_more_or(*b, or_joined(Some(left), *a), t, mid);
        },
        _ => {
            lemma_reads_and(e, t, at + 1);
        },
    }
}

/// The text of an expression reads back.
proof fn lemma_reads_back(e: TagExprView)
    requires
        all_spellable(e),
    ensures
        tag_expr::parsed(tag_expr::shown(e)) == Result::<TagExprView, TagExprError>::Ok(read_back(e)),
{
    let none = Seq::<char>::empty();
    lemma_scan_shown(e, none);
    assert(tag_expr::shown(e) + none =~= tag_expr::shown(e));
    let t = tokens_of(e);
    assert(t + Seq::<TokenView>::empty() =~= t);
    lemma_some_token(e);
    lemma_reads_or(e, t, 0);
}

// ---------------------------------------------------------------------------
// Laws

proof fn lemma_kind_kept(left: Option<TagExprView>, e: TagExprView)
    ensures
        left is Some ==> and_joined(left, e) is And,
        left is Some ==> or_joined(left, e) is Or,
        e is And ==> and_joined(None, e) is And && or_joined(None, e) is And && operand(e) is And,
        e is Or ==> or_joined(None, e) is Or && operand(e) is Or && and_joined(None, e) is Or,
        !(e is And) && !(e is Or) ==> !(operand(e) is And) && !(operand(e) is Or),
        !(e is And) && !(e is Or) ==> or_joined(None, e) == operand(e) && and_joined(None, e)
            == operand(e),
    decreases e,
{
    match e {
        TagExprView::And(a, b) => {
            lemma_kind_kept(Some(and_joined(left, *a)), *b);
            lemma_kind_kept(Some(and_joined(None, *a)), *b);
        },
        TagExprView::Or(a, b) => {
            lemma_kind_kept(Some(or_joined(left, *a)), *b);
            lemma_kind_kept(Some(or_joined(None, *a)), *b);
        },
        _ => {},
    }
}

proof fn lemma_same_operand(e: TagExprView, tags: Set<Seq<char>>)
    ensures
        tag_expr::selects(operand(e), tags) == tag_expr::selects(e, tags),
    decreases e, operand_level(e) + 10,
{
    match e {
        TagExprView::Never => {
            assert(tag_expr::selects(TagExprView::Always, tags));
        },
        TagExprView::Not(x) => {
            lemma_same_operand(*x, tags);
        },
        TagExprView::And(_, _) => {
            lemma_same_or(None, e, tags);
        },
        TagExprView::Or(_, _) => {
            lemma_same_or(None, e, tags);
        },
        _ => {},
    }
}

proof fn lemma_same_and(left: Option<TagExprView>, e: TagExprView, tags: Set<Seq<char>>)
    ensures
        tag_expr::selects(and_joined(left, e), tags) == (tag_expr::selects(e, tags) && (left is Some ==> tag_expr::selects(
            left->0,
            tags,
        ))),
    decreases e, and_level(e) + 10,
{
    match e {
        TagExprView::And(a, b) => {
            lemma_same_and(left, *a, tags);
            lemma_same_and(Some(and_joined(left, *a)), *b, tags);
        },
        _ => {
            lemma_same_operand(e, tags);
        },
    }
}

proof fn lemma_same_or(left: Option<TagExprView>, e: TagExprView, tags: Set<Seq<char>>)
    ensures
        tag_expr::selects(or_joined(left, e), tags) == (tag_expr::selects(e, tags) || (left is Some && tag_expr::selects(
            left->0,
            tags,
        ))),
    decreases e, or_level(e) + 10,
{
    match e {
        TagExprView::Or(a, b) => {
            lemma_same_or(left, *a, tags);
            lemma_same_or(Some(or_joined(left, *a)), *b, tags);
        },
        _ => {
            lemma_same_and(None, e, tags);
        },
    }
}

/// As an operand of `&&`.
spec fn shown_side(e: TagExprView) -> Seq<char> {
    if e is Or {
        tag_expr::bracketed(tag_expr::shown(e))
    } else {
        tag_expr::shown(e)
    }
}

proof fn lemma_shown_operand(e: TagExprView)
    ensures
        tag_expr::shown(operand(e)) == tag_expr::shown(e),
    decreases e, operand_level(e) + 10,
{
    lemma_kind_kept(None, e);
    match e {
        TagExprView::Never => {
            reveal_strlit("!");
            reveal_strlit("*");
            reveal_strlit("!*");
            assert(tag_expr::shown(TagExprView::Always) == "*"@);
            assert("!"@ + "*"@ =~= "!*"@);
        },
        TagExprView::Not(x) => {
            lemma_shown_operand(*x);
            lemma_kind_kept(None, *x);
        },
        TagExprView::And(_, _) => {
            lemma_shown_or(None, e);
        },
        TagExprView::Or(_, _) => {
            lemma_shown_or(None, e);
        },
        _ => {},
    }
}

proof fn lemma_shown_and(left: Option<TagExprView>, e: TagExprView)
    ensures
        left is Some ==> tag_expr::shown(and_joined(left, e)) == shown_side(left->0) + " && "@
            + shown_side(e),
        left is None && !(e is Or) ==> tag_expr::shown(and_joined(left, e)) == tag_expr::shown(e),
    decreases e, and_level(e) + 10,
{
    lemma_kind_kept(left, e);
    match e {
        TagExprView::And(a, b) => {
            lemma_shown_and(left, *a);
            lemma_kind_kept(left, *a);
            lemma_kind_kept(None, *a);
            lemma_shown_and(Some(and_joined(left, *a)), *b);
            if left is Some {
                assert(shown_side(left->0) + " && "@ + shown_side(*a) + " && "@ + shown_side(*b)
                    =~= shown_side(left->0) + " && "@ + (shown_side(*a) + " && "@ + shown_side(
                    *b,
                )));
            } else if *a is Or {
                lemma_shown_operand(*a);
            }
        },
        _ => {
            lemma_shown_operand(e);
        },
    }
}

proof fn lemma_shown_or(left: Option<TagExprView>, e: TagExprView)
    ensures
        left is Some ==> tag_expr::shown(or_joined(left, e)) == tag_expr::shown(left->0) + " || "@ + tag_expr::shown(e),
        left is None ==> tag_expr::shown(or_joined(left, e)) == tag_expr::shown(e),
    decreases e, or_level(e) + 10,
{
    match e {
        TagExprView::Or(a, b) => {
            lemma_shown_or(left, *a);
            lemma_shown_or(Some(or_joined(left, *a)), *b);
            if left is Some {
                assert(tag_expr::shown(left->0) + " || "@ + tag_expr::shown(*a) + " || "@ + tag_expr::shown(*b) =~= tag_expr::shown(
                    left->0,
                ) + " || "@ + (tag_expr::shown(*a) + " || "@ + tag_expr::shown(*b)));
            }
        },
        _ => {
            lemma_shown_and(None, e);
        },
    }
}

/// The text of an expression reads back as an expression that the same tags
/// match, and that has the same text.
pub proof fn text_reads_back_the_same(e: TagExprView, tags: Set<Seq<char>>)
    requires
        all_spellable(e),
    ensures
        tag_expr::parsed(tag_expr::shown(e)) is Ok,
        tag_expr::selects(tag_expr::parsed(tag_expr::shown(e))->Ok_0, tags) == tag_expr::selects(e, tags),
        tag_expr::shown(tag_expr::parsed(tag_expr::shown(e))->Ok_0) == tag_expr::shown(e),
{
    lemma_reads_back(e);
    lemma_same_or(None, e, tags);
    lemma_shown_or(None, e);
}

/// Whether chains of one operator are nested to the left, and nothing stands
/// for what nothing matches but `!*`.
pub open spec fn nested_left(e: TagExprView) -> bool
    decreases e,
{
    match e {
        TagExprView::Never => false,
        TagExprView::Not(x) => nested_left(*x),
        TagExprView::And(a, b) => nested_left(*a) && nested_left(*b) && !(*b is And),
        TagExprView::Or(a, b) => nested_left(*a) && nested_left(*b) && !(*b is Or),
        _ => true,
    }
}

proof fn lemma_left_operand(e: TagExprView)
    requires
        nested_left(e),
    ensures
        operand(e) == e,
    decreases e, operand_level(e) + 10,
{
    match e {
        TagExprView::Not(x) => {
            lemma_left_operand(*x);
        },
        TagExprView::And(_, _) => {
            lemma_left_or(e);
        },
        TagExprView::Or(_, _) => {
            lemma_left_or(e);
        },
        _ => {},
    }
}

proof fn lemma_left_and(e: TagExprView)
    requires
        nested_left(e),
    ensures
        and_joined(None, e) == e,
    decreases e, and_level(e) + 10,
{
    match e {
        TagExprView::And(a, b) => {
            lemma_left_and(*a);
            lemma_left_operand(*b);
            assert(and_joined(Some(*a), *b) == TagExprView::And(a, b));
        },
        _ => {
            lemma_left_operand(e);
        },
    }
}

proof fn lemma_left_or(e: TagExprView)
    requires
        nested_left(e),
    ensures
        or_joined(None, e) == e,
    decreases e, or_level(e) + 10,
{
    match e {
        TagExprView::Or(a, b) => {
            lemma_left_or(*a);
            lemma_left_and(*b);
            assert(or_joined(Some(*a), *b) == TagExprView::Or(a, b));
        },
        _ => {
            lemma_left_and(e);
        },
    }
}

/// An expression whose chains are nested to the left is what its text reads
/// back as.
pub proof fn text_reads_back_exactly(e: TagExprView)
    requires
        all_spellable(e),
        nested_left(e),
    ensures
        tag_expr::parsed(tag_expr::shown(e)) == Result::<TagExprView, TagExprError>::Ok(e),
{
    lemma_reads_back(e);
    lemma_left_or(e);
}

// ---------------------------------------------------------------------------
// What parses can be written

spec fn tokens_spellable(t: Seq<TokenView>) -> bool {
    forall|i: int| 0 <= i < t.len() && (#[trigger] t[i]) is Tag ==> spellable(t[i]->Tag_0)
}

proof fn lemma_followed_spellable(first: TokenView, rest: Scan)
    requires
        first is Tag ==> spellable(first->Tag_0),
        rest is Ok ==> tokens_spellable(rest->Ok_0),
    ensures
        tag_expr::followed(seq![first], rest) is Ok ==> tokens_spellable(
            tag_expr::followed(seq![first], rest)->Ok_0,
        ),
{
    if rest is Ok {
        let t = seq![first] + rest->Ok_0;
        assert forall|i: int| 0 <= i < t.len() && (#[trigger] t[i]) is Tag implies spellable(
            t[i]->Tag_0,
        ) by {
            if i > 0 {
                assert(t[i] == rest->Ok_0[i - 1]);
            }
        }
    }
}

proof fn lemma_scan_spellable(s: Seq<char>)
    ensures
        tag_expr::scanned(s) is Ok ==> tokens_spellable(tag_expr::scanned(s)->Ok_0),
    decreases s.len(),
{
    if s.len() > 0 {
        if s[0] == '&' || s[0] == '|' {
            if s.len() > 1 && s[1] == s[0] {
                lemma_scan_spellable(s.skip(2));
                lemma_followed_spellable(TokenView::And, tag_expr::scanned(s.skip(2)));
                lemma_followed_spellable(TokenView::Or, tag_expr::scanned(s.skip(2)));
            }
        } else if tag_expr::tag_char(s[0]) {
            let n = tag_expr::word_len(s) as int;
            tag_expr::lemma_word_len(s);
            lemma_scan_spellable(s.skip(n));
            let tag = s.take(n);
            assert(spellable(tag)) by {
                assert(tag[0] == s[0]);
                assert forall|i: int| 0 <= i < tag.len() implies tag_expr::tag_char(#[trigger] tag[i]) by {
                    assert(tag[i] == s[i]);
                }
            }
            lemma_followed_spellable(TokenView::Tag(tag), tag_expr::scanned(s.skip(n)));
        } else {
            lemma_scan_spellable(s.skip(1));
            lemma_followed_spellable(TokenView::Star, tag_expr::scanned(s.skip(1)));
            lemma_followed_spellable(TokenView::Not, tag_expr::scanned(s.skip(1)));
            lemma_followed_spellable(TokenView::Open, tag_expr::scanned(s.skip(1)));
            lemma_followed_spellable(TokenView::Close, tag_expr::scanned(s.skip(1)));
        }
    }
}

proof fn lemma_read_or_spellable(t: Seq<TokenView>, at: int)
    requires
        tokens_spellable(t),
    ensures
        tag_expr::read_or(t, at) is Ok ==> all_spellable(tag_expr::read_or(t, at)->Ok_0.0),
    decreases t.len() - at, 4int,
{
    lemma_read_and_spellable(t, at);
    if let Ok((left, next)) = tag_expr::read_and(t, at) {
        if at < next <= t.len() {
            lemma_more_or_spellable(t, left, next);
        }
    }
}

proof fn lemma_more_or_spellable(t: Seq<TokenView>, left: TagExprView, at: int)
    requires
        tokens_spellable(t),
        all_spellable(left),
    ensures
        tag_expr::more_or(t, left, at) is Ok ==> all_spellable(tag_expr::more_or(t, left, at)->Ok_0.0),
    decreases t.len() - at, 0int,
{
    if tag_expr::stands(t, at, TokenView::Or) {
        lemma_read_and_spellable(t, at + 1);
        if let Ok((right, next)) = tag_expr::read_and(t, at + 1) {
            if at < next <= t.len() {
                lemma_more_or_spellable(
                    t,
                    TagExprView::Or(Box::new(left), Box::new(right)),
                    next,
                );
            }
        }
    }
}

proof fn lemma_read_and_spellable(t: Seq<TokenView>, at: int)
    requires
        tokens_spellable(t),
    ensures
        tag_expr::read_and(t, at) is Ok ==> all_spellable(tag_expr::read_and(t, at)->Ok_0.0),
    decreases t.len() - at, 3int,
{
    lemma_read_unary_spellable(t, at);
    if let Ok((left, next)) = tag_expr::read_unary(t, at) {
        if at < next <= t.len() {
            lemma_more_and_spellable(t, left, next);
        }
    }
}

proof fn lemma_more_and_spellable(t: Seq<TokenView>, left: TagExprView, at: int)
    requires
        tokens_spellable(t),
        all_spellable(left),
    ensures
        tag_expr::more_and(t, left, at) is Ok ==> all_spellable(tag_expr::more_and(t, left, at)->Ok_0.0),
    decreases t.len() - at, 0int,
{
    if tag_expr::stands(t, at, TokenView::And) {
        lemma_read_unary_spellable(t, at + 1);
        if let Ok((right, next)) = tag_expr::read_unary(t, at + 1) {
            if at < next <= t.len() {
                lemma_more_and_spellable(
                    t,
                    TagExprView::And(Box::new(left), Box::new(right)),
                    next,
                );
            }
        }
    }
}

proof fn lemma_read_unary_spellable(t: Seq<TokenView>, at: int)
    requires
        tokens_spellable(t),
    ensures
        tag_expr::read_unary(t, at) is Ok ==> all_spellable(tag_expr::read_unary(t, at)->Ok_0.0),
    decreases t.len() - at, 2int,
{
    if tag_expr::stands(t, at, TokenView::Not) {
        lemma_read_unary_spellable(t, at + 1);
    } else if 0 <= at < t.len() {
        assert(tag_expr::read_unary(t, at) == tag_expr::read_atom(t, at));
        match t[at] {
            TokenView::Tag(tag) => {
                assert(all_spellable(TagExprView::Tag(tag)));
            },
            TokenView::Open => {
                lemma_read_or_spellable(t, at + 1);
            },
            _ => {
                assert(all_spellable(TagExprView::Always));
            },
        }
    }
}

/// Every expression that was read from a text can be written down again, and
/// what is written reads back as an expression that the same tags match.
pub proof fn what_parses_can_be_written(s: Seq<char>, tags: Set<Seq<char>>)
    requires
        tag_expr::parsed(s) is Ok,
    ensures
        all_spellable(tag_expr::parsed(s)->Ok_0),
        tag_expr::parsed(tag_expr::shown(tag_expr::parsed(s)->Ok_0)) is Ok,
        tag_expr::selects(tag_expr::parsed(tag_expr::shown(tag_expr::parsed(s)->Ok_0))->Ok_0, tags) == tag_expr::selects(tag_expr::parsed(s)->Ok_0, tags),
{
    lemma_scan_spellable(s);
    lemma_read_or_spellable(tag_expr::scanned(s)->Ok_0, 0);
    text_reads_back_the_same(tag_expr::parsed(s)->Ok_0, tags);
}

} // verus!
