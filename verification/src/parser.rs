//! The abstract syntax tree and the recursive-descent parser.
//!
//! The grammar is context-sensitive: conditional and else keywords are drawn
//! from fixed phrase lists, and no phrase may be reused until every phrase of
//! its list has been used once (the used-sets then clear and the cycle
//! restarts).  The parser therefore carries a mutable [`State`].

use vstd::prelude::*;

verus! {

/// An identifier: one or more non-ASCII Unicode alphanumeric code points.
#[derive(Debug, PartialEq, Eq)]
pub struct Ident(pub String);

/// A binary operator tag.
#[derive(Debug, Clone, Copy, PartialEq, Eq, Structural)]
pub enum Op {
    Equ,
    Add,
    Mul,
    Sub,
}

/// A positional-parameter reference; 0 stands for "all parameters".
#[derive(Debug, Clone, Copy, PartialEq, Eq, Structural)]
pub struct Param(pub u64);

/// One element of a vector literal: a literal number or a parameter.
#[derive(Debug, Clone, Copy, PartialEq, Eq, Structural)]
pub enum VectorComponent {
    Number(u64),
    Param(Param),
}

/// An AST node.
#[derive(Debug, PartialEq, Eq)]
pub enum Expr {
    Scope(Box<Expr>),
    Op(Box<Expr>, Op, Box<Expr>),
    Conditional { condition: Box<Expr>, success: Box<Expr>, failure: Box<Option<Expr>> },
    Definition(Ident, Box<Expr>),
    Call(Ident, Vec<Expr>),
    Param(Param),
    Text(String),
    Vector(Vec<VectorComponent>),
    WriteIO(Box<Expr>),
    ReadIO,
}

/// The mathematical model of a vector component.
pub enum CompV {
    Number(u64),
    Param(u64),
}

/// The mathematical model of an AST node: strings become character
/// sequences and vectors become sequences, so that two nodes are equal
/// exactly when they are structurally identical.
pub enum ExprV {
    Scope(Box<ExprV>),
    Op(Box<ExprV>, Op, Box<ExprV>),
    Conditional(Box<ExprV>, Box<ExprV>, Option<Box<ExprV>>),
    Definition(Seq<char>, Box<ExprV>),
    Call(Seq<char>, Seq<ExprV>),
    Param(u64),
    Text(Seq<char>),
    Vector(Seq<CompV>),
    WriteIO(Box<ExprV>),
    ReadIO,
}

pub open spec fn comp_view(c: VectorComponent) -> CompV {
    match c {
        VectorComponent::Number(n) => CompV::Number(n),
        VectorComponent::Param(p) => CompV::Param(p.0),
    }
}

pub open spec fn expr_view(e: Expr) -> ExprV
    decreases e,
{
    match e {
        Expr::Scope(b) => ExprV::Scope(Box::new(expr_view(*b))),
        Expr::Op(l, op, r) => ExprV::Op(Box::new(expr_view(*l)), op, Box::new(expr_view(*r))),
        Expr::Conditional { condition, success, failure } => ExprV::Conditional(
            Box::new(expr_view(*condition)),
            Box::new(expr_view(*success)),
            match *failure {
                Some(f) => Some(Box::new(expr_view(f))),
                None => None,
            },
        ),
        Expr::Definition(name, body) => ExprV::Definition(name.0@, Box::new(expr_view(*body))),
        Expr::Call(name, args) => ExprV::Call(name.0@, exprs_view(args@)),
        Expr::Param(p) => ExprV::Param(p.0),
        Expr::Text(s) => ExprV::Text(s@),
        Expr::Vector(cs) => ExprV::Vector(cs@.map_values(|c: VectorComponent| comp_view(c))),
        Expr::WriteIO(b) => ExprV::WriteIO(Box::new(expr_view(*b))),
        Expr::ReadIO => ExprV::ReadIO,
    }
}

pub open spec fn exprs_view(s: Seq<Expr>) -> Seq<ExprV>
    decreases s,
{
    if s.len() == 0 {
        Seq::empty()
    } else {
        exprs_view(s.drop_last()).push(expr_view(s.last()))
    }
}

pub proof fn lemma_exprs_view_len(s: Seq<Expr>)
    ensures
        exprs_view(s).len() == s.len(),
        forall|i: int| 0 <= i < s.len() ==> exprs_view(s)[i] == expr_view(s[i]),
    decreases s,
{
    if s.len() > 0 {
        lemma_exprs_view_len(s.drop_last());
    }
}

/// Why a parse failed.  Only a reused phrase aborts the whole parse;
/// the other two merely reject one grammar alternative.
#[derive(Debug, Clone, Copy, PartialEq, Eq, Structural)]
pub enum ParseError {
    /// No grammar alternative matches the input.
    Unrecognized,
    /// A conditional or else phrase was reused before its list was exhausted.
    PhraseExhausted,
    /// A text literal with no content.
    EmptyText,
}

pub open spec fn is_hard_error(e: ParseError) -> bool {
    e is PhraseExhausted
}

/// The two phrase lists that the rotation constraint applies to.
#[derive(Debug, Clone, Copy, PartialEq, Eq, Structural)]
pub enum PhraseList {
    Conditionals,
    Elses,
}

/// The mathematical model of the parser state: which phrase of each list
/// has been used in the current cycle.
pub struct StV {
    pub ifs: Seq<bool>,
    pub elses: Seq<bool>,
}

impl StV {
    pub open spec fn wf(self) -> bool {
        self.ifs.len() == 11 && self.elses.len() == 13
    }

    pub open spec fn init() -> StV {
        StV { ifs: Seq::new(11, |i: int| false), elses: Seq::new(13, |i: int| false) }
    }
}

/// The parser state: the used-set of each phrase list.
pub struct State {
    used_conditionals: Vec<bool>,
    used_elses: Vec<bool>,
}

impl View for State {
    type V = StV;

    closed spec fn view(&self) -> StV {
        StV { ifs: self.used_conditionals@, elses: self.used_elses@ }
    }
}

impl State {
    pub open spec fn wf(&self) -> bool {
        self@.wf()
    }
}

fn all_false(n: usize) -> (r: Vec<bool>)
    ensures
        r@ =~= Seq::new(n as nat, |i: int| false),
{
    let mut r: Vec<bool> = Vec::new();
    let mut i: usize = 0;
    while i < n
        invariant
            i <= n,
            r@ =~= Seq::new(i as nat, |j: int| false),
        decreases n - i,
    {
        r.push(false);
        i = i + 1;
    }
    r
}

impl Default for State {
    /// A fresh state: no phrase of either list has been used.
    fn default() -> (r: Self)
        ensures
            r@ =~= StV::init(),
            r.wf(),
    {
        State { used_conditionals: all_false(11), used_elses: all_false(13) }
    }
}

/// The eleven conditional-opener phrases, in the order they are tried.
pub open spec fn if_phrases() -> Seq<Seq<char>> {
    seq![
        "given that"@,
        "assuming that"@,
        "conceding that"@,
        "granted that"@,
        "in case that"@,
        "on the assumption that"@,
        "on the occasion that"@,
        "supposing that"@,
        "whenever"@,
        "wherever"@,
        "with the condition that"@,
    ]
}

/// The thirteen else-opener phrases, in the order they are tried.
pub open spec fn else_phrases() -> Seq<Seq<char>> {
    seq![
        "otherwise"@,
        "differently"@,
        "any other way"@,
        "contrarily"@,
        "diversely"@,
        "elseways"@,
        "if not"@,
        "in different circumstances"@,
        "on the other hand"@,
        "or else"@,
        "or then"@,
        "under other conditions"@,
        "variously"@,
    ]
}

pub open spec fn phrases_of(l: PhraseList) -> Seq<Seq<char>> {
    match l {
        PhraseList::Conditionals => if_phrases(),
        PhraseList::Elses => else_phrases(),
    }
}

/// Whether the character is Unicode-alphanumeric, exactly as the standard
/// library classifies characters.
pub uninterp spec fn is_unicode_alphanumeric(c: char) -> bool;

/// Relies on char::is_alphanumeric: the Unicode alphanumeric classification,
/// a pure function of the character.
#[verifier::external_body]
fn char_is_alphanumeric(c: char) -> (r: bool)
    ensures
        r == is_unicode_alphanumeric(c),
{
    c.is_alphanumeric()
}

/// Inline whitespace: what separates tokens on one line.
pub open spec fn is_space_char(c: char) -> bool {
    c == ' ' || c == '\t'
}

/// Any whitespace, newlines included.
pub open spec fn is_multispace_char(c: char) -> bool {
    c == ' ' || c == '\t' || c == '\r' || c == '\n'
}

/// Characters that end a text literal.
pub open spec fn text_end_char(c: char) -> bool {
    c == ' ' || c == '\r' || c == '\n'
}

/// Characters an identifier is made of: non-ASCII Unicode alphanumerics.
pub open spec fn ident_char(c: char) -> bool {
    (c as u32) > 127 && is_unicode_alphanumeric(c)
}

/// How many positions are left from `pos` to the end of `src`; the measure
/// every recursive parsing function decreases.
pub open spec fn rem(src: Seq<char>, pos: int) -> nat {
    if 0 <= pos <= src.len() {
        (src.len() - pos) as nat
    } else {
        0
    }
}

/// The source is short enough that every punctuation number fits in `u64`
/// and no position computation overflows `usize`.
pub open spec fn src_ok(src: Seq<char>) -> bool {
    src.len() <= 0x1000_0000
}

/// `t` occurs literally at `pos`.
pub open spec fn sp_match(src: Seq<char>, pos: int, t: Seq<char>) -> bool {
    0 <= pos && pos + t.len() <= src.len() && src.subrange(pos, pos + t.len()) == t
}

/// Skip inline spaces; the position after them.
pub open spec fn sp_space0(src: Seq<char>, pos: int) -> int
    decreases rem(src, pos),
{
    if 0 <= pos < src.len() && is_space_char(src[pos]) {
        sp_space0(src, pos + 1)
    } else {
        pos
    }
}

/// Skip any whitespace; the position after it.
pub open spec fn sp_multispace0(src: Seq<char>, pos: int) -> int
    decreases rem(src, pos),
{
    if 0 <= pos < src.len() && is_multispace_char(src[pos]) {
        sp_multispace0(src, pos + 1)
    } else {
        pos
    }
}

/// The end of the run of `:` characters that starts at `pos`.
pub open spec fn sp_colon_run(src: Seq<char>, pos: int) -> int
    decreases rem(src, pos),
{
    if 0 <= pos < src.len() && src[pos] == ':' {
        sp_colon_run(src, pos + 1)
    } else {
        pos
    }
}

/// The end of the run of identifier characters that starts at `pos`.
pub open spec fn sp_ident_end(src: Seq<char>, pos: int) -> int
    decreases rem(src, pos),
{
    if 0 <= pos < src.len() && ident_char(src[pos]) {
        sp_ident_end(src, pos + 1)
    } else {
        pos
    }
}

/// The end of the run of ordinary text characters that starts at `pos`
/// (everything but `/`, space, carriage return and newline).
pub open spec fn sp_text_run(src: Seq<char>, pos: int) -> int
    decreases rem(src, pos),
{
    if 0 <= pos < src.len() && src[pos] != '/' && !text_end_char(src[pos]) {
        sp_text_run(src, pos + 1)
    } else {
        pos
    }
}

/// A punctuation number: `.` is 1, `:` is 2, and every further `:` adds 2.
pub open spec fn sp_number(src: Seq<char>, pos: int) -> Option<(u64, int)> {
    if 0 <= pos < src.len() && (src[pos] == '.' || src[pos] == ':') {
        let base: int = if src[pos] == '.' {
            1
        } else {
            2
        };
        let end = sp_colon_run(src, pos + 1);
        Some((((base + 2 * (end - (pos + 1))) as u64, end)))
    } else {
        None
    }
}

/// A parameter reference: `\` then a number, or `\\` for parameter 0.
pub open spec fn sp_param(src: Seq<char>, pos: int) -> Option<(u64, int)> {
    if 0 <= pos < src.len() && src[pos] == '\\' {
        if pos + 1 < src.len() && src[pos + 1] == '\\' {
            Some((0u64, pos + 2))
        } else {
            sp_number(src, pos + 1)
        }
    } else {
        None
    }
}

/// An identifier: a maximal nonempty run of identifier characters.
pub open spec fn sp_ident(src: Seq<char>, pos: int) -> Option<(Seq<char>, int)> {
    if 0 <= pos <= src.len() {
        let end = sp_ident_end(src, pos);
        if end > pos {
            Some((src.subrange(pos, end), end))
        } else {
            None
        }
    } else {
        None
    }
}

/// One pass of the text-literal scanner: a `/`, an optional second `/`
/// (a literal slash), an optional space (a literal space), then a run of
/// ordinary characters; the scan continues while the next character is
/// another `/`.
pub open spec fn sp_text_scan(src: Seq<char>, pos: int) -> Option<(Seq<char>, int)>
    decreases rem(src, pos),
{
    if 0 <= pos < src.len() && src[pos] == '/' {
        let p1 = pos + 1;
        let acc1: Seq<char> = if p1 < src.len() && src[p1] == '/' {
            seq!['/']
        } else {
            Seq::empty()
        };
        let p2: int = if p1 < src.len() && src[p1] == '/' {
            p1 + 1
        } else {
            p1
        };
        let acc2: Seq<char> = if p2 < src.len() && src[p2] == ' ' {
            acc1.push(' ')
        } else {
            acc1
        };
        let p3: int = if p2 < src.len() && src[p2] == ' ' {
            p2 + 1
        } else {
            p2
        };
        let p4 = sp_text_run(src, p3);
        let acc3 = acc2 + src.subrange(p3, p4);
        if p4 >= src.len() || text_end_char(src[p4]) {
            Some((acc3, p4))
        } else if 0 <= pos && pos < p4 && p4 <= src.len() {
            match sp_text_scan(src, p4) {
                Some((acc4, p5)) => Some((acc3 + acc4, p5)),
                None => None,
            }
        } else {
            None
        }
    } else {
        None
    }
}

/// A text literal; scanning nothing at all and scanning empty content are
/// the two ways it fails.
pub open spec fn sp_text(src: Seq<char>, pos: int) -> Result<(Seq<char>, int), ParseError> {
    match sp_text_scan(src, pos) {
        None => Err(ParseError::Unrecognized),
        Some((acc, p)) => if acc.len() == 0 {
            Err(ParseError::EmptyText)
        } else {
            Ok((acc, p))
        },
    }
}

/// One vector component: a number, else a parameter.
pub open spec fn sp_vcomp(src: Seq<char>, pos: int) -> Option<(CompV, int)> {
    match sp_number(src, pos) {
        Some((n, p)) => Some((CompV::Number(n), p)),
        None => match sp_param(src, pos) {
            Some((k, p)) => Some((CompV::Param(k), p)),
            None => None,
        },
    }
}

/// Further vector components, each preceded by at least one inline space;
/// stops before the separator when no component follows it.
pub open spec fn sp_vector_rest(src: Seq<char>, pos: int) -> (Seq<CompV>, int)
    decreases rem(src, pos),
{
    if 0 <= pos < src.len() && is_space_char(src[pos]) {
        let p1 = sp_space0(src, pos);
        match sp_vcomp(src, p1) {
            Some((c, p2)) => if 0 <= pos && pos < p2 && p2 <= src.len() {
                let (cs, p3) = sp_vector_rest(src, p2);
                (seq![c] + cs, p3)
            } else {
                (Seq::empty(), pos)
            },
            None => (Seq::empty(), pos),
        }
    } else {
        (Seq::empty(), pos)
    }
}

/// A vector literal: one or more components separated by inline spaces.
pub open spec fn sp_vector(src: Seq<char>, pos: int) -> Option<(Seq<CompV>, int)> {
    match sp_vcomp(src, pos) {
        Some((c, p1)) => {
            let (cs, p2) = sp_vector_rest(src, p1);
            Some((seq![c] + cs, p2))
        },
        None => None,
    }
}

/// How many entries of a used-set are set.
pub open spec fn count_true(s: Seq<bool>) -> nat
    decreases s,
{
    if s.len() == 0 {
        0
    } else {
        count_true(s.drop_last()) + if s.last() {
            1nat
        } else {
            0nat
        }
    }
}

/// How far `a` is below `b`, as a measure.
pub open spec fn gap(a: int, b: int) -> nat {
    if a < b {
        (b - a) as nat
    } else {
        0
    }
}

/// The first phrase, from index `k` on, that occurs literally at `pos`.
pub open spec fn sp_first_match(src: Seq<char>, pos: int, phrases: Seq<Seq<char>>, k: int) -> Option<
    int,
>
    decreases gap(k, phrases.len() as int),
{
    if 0 <= k < phrases.len() {
        if sp_match(src, pos, phrases[k]) {
            Some(k)
        } else {
            sp_first_match(src, pos, phrases, k + 1)
        }
    } else {
        None
    }
}

/// The phrase-rotation matcher.  When the used-set is full it clears (the
/// cycle restarts); the first phrase that matches wins; matching a phrase
/// already used in this cycle is a hard failure; otherwise the phrase is
/// consumed and marked used.  The used-set comes back changed on failure
/// too, as the clearing already happened.
pub open spec fn sp_cond(src: Seq<char>, pos: int, used: Seq<bool>, phrases: Seq<Seq<char>>) -> Result<
    (int, Seq<bool>),
    (ParseError, Seq<bool>),
> {
    let u1: Seq<bool> = if count_true(used) == phrases.len() {
        Seq::new(used.len(), |i: int| false)
    } else {
        used
    };
    match sp_first_match(src, pos, phrases, 0) {
        None => Err((ParseError::Unrecognized, u1)),
        Some(i) => if u1[i] {
            Err((ParseError::PhraseExhausted, u1))
        } else {
            Ok((pos + phrases[i].len(), u1.update(i, true)))
        },
    }
}

/// What a parsing function yields: the parsed thing, the position after it
/// and the state after it, or the error and the state after the attempt.
pub type SpRes<T> = Result<(T, int, StV), (ParseError, StV)>;

/// A scope terminator has been found at `pos`: a `)` (consumed, with its
/// trailing spaces), a peeked newline (not consumed), or the end of input.
pub open spec fn sp_scope_end(src: Seq<char>, pos: int) -> Option<int> {
    if 0 <= pos < src.len() && src[pos] == ')' {
        Some(sp_space0(src, pos + 1))
    } else if 0 <= pos < src.len() && (src[pos] == '\n' || (src[pos] == '\r' && pos + 1 < src.len()
        && src[pos + 1] == '\n')) {
        Some(pos)
    } else if pos == src.len() {
        Some(pos)
    } else {
        None
    }
}

/// A function definition: an identifier, the currency sign, and a body.
pub open spec fn sp_fundef(src: Seq<char>, pos: int, st: StV) -> SpRes<ExprV>
    decreases rem(src, pos), 2nat,
{
    match sp_ident(src, pos) {
        None => Err((ParseError::Unrecognized, st)),
        Some((name, p1)) => {
            let p2 = sp_space0(src, p1);
            if 0 <= p2 < src.len() && src[p2] == '\u{a4}' {
                let p3 = sp_space0(src, p2 + 1);
                if 0 <= pos && pos < p3 && p3 <= src.len() {
                    match sp_expr(src, p3, st) {
                        Err(e) => Err(e),
                        Ok((body, p4, st1)) => Ok(
                            (ExprV::Definition(name, Box::new(body)), p4, st1),
                        ),
                    }
                } else {
                    Err((ParseError::Unrecognized, st))
                }
            } else {
                Err((ParseError::Unrecognized, st))
            }
        },
    }
}

/// The arguments of a call: expressions, one after the other, as long as
/// one parses; a hard failure aborts, a soft failure ends the list.
pub open spec fn sp_args(src: Seq<char>, pos: int, st: StV) -> SpRes<Seq<ExprV>>
    decreases rem(src, pos), 5nat,
{
    match sp_expr(src, pos, st) {
        Err((e, st1)) => if is_hard_error(e) {
            Err((e, st1))
        } else {
            Ok((Seq::empty(), pos, st1))
        },
        Ok((a, p1, st1)) => if 0 <= pos && pos < p1 && p1 <= src.len() {
            match sp_args(src, p1, st1) {
                Err(e) => Err(e),
                Ok((rest, p2, st2)) => Ok((seq![a] + rest, p2, st2)),
            }
        } else {
            Err((ParseError::Unrecognized, st1))
        },
    }
}

/// A function call: an identifier followed by its arguments.
pub open spec fn sp_funcall(src: Seq<char>, pos: int, st: StV) -> SpRes<ExprV>
    decreases rem(src, pos), 2nat,
{
    match sp_ident(src, pos) {
        None => Err((ParseError::Unrecognized, st)),
        Some((name, p1)) => {
            let p2 = sp_space0(src, p1);
            if 0 <= pos && pos < p2 && p2 <= src.len() {
                match sp_args(src, p2, st) {
                    Err(e) => Err(e),
                    Ok((args, p3, st1)) => Ok((ExprV::Call(name, args), p3, st1)),
                }
            } else {
                Err((ParseError::Unrecognized, st))
            }
        },
    }
}

/// A scope: `{`, an expression, and a terminator (see [`sp_scope_end`]).
pub open spec fn sp_scope(src: Seq<char>, pos: int, st: StV) -> SpRes<ExprV>
    decreases rem(src, pos), 2nat,
{
    if 0 <= pos < src.len() && src[pos] == '{' {
        let p1 = sp_space0(src, pos + 1);
        if 0 <= pos && pos < p1 && p1 <= src.len() {
            match sp_expr(src, p1, st) {
                Err(e) => Err(e),
                Ok((body, p2, st1)) => match sp_scope_end(src, p2) {
                    Some(p3) => Ok((ExprV::Scope(Box::new(body)), p3, st1)),
                    None => Err((ParseError::Unrecognized, st1)),
                },
            }
        } else {
            Err((ParseError::Unrecognized, st))
        }
    } else {
        Err((ParseError::Unrecognized, st))
    }
}

/// An else branch: an else phrase (under rotation), then an expression.
pub open spec fn sp_otherwise(src: Seq<char>, pos: int, st: StV) -> SpRes<ExprV>
    decreases rem(src, pos), 2nat,
{
    match sp_cond(src, pos, st.elses, else_phrases()) {
        Err((e, u)) => Err((e, StV { ifs: st.ifs, elses: u })),
        Ok((p1, u)) => {
            let st1 = StV { ifs: st.ifs, elses: u };
            let p2 = sp_space0(src, p1);
            if 0 <= pos && pos < p2 && p2 <= src.len() {
                sp_expr(src, p2, st1)
            } else {
                Err((ParseError::Unrecognized, st1))
            }
        },
    }
}

/// A conditional: an opener phrase (under rotation), a condition, a success
/// branch, and an optional else branch.
pub open spec fn sp_conditional(src: Seq<char>, pos: int, st: StV) -> SpRes<ExprV>
    decreases rem(src, pos), 2nat,
{
    match sp_cond(src, pos, st.ifs, if_phrases()) {
        Err((e, u)) => Err((e, StV { ifs: u, elses: st.elses })),
        Ok((p1, u)) => {
            let st1 = StV { ifs: u, elses: st.elses };
            let p2 = sp_space0(src, p1);
            if 0 <= pos && pos < p2 && p2 <= src.len() {
                match sp_expr(src, p2, st1) {
                    Err(e) => Err(e),
                    Ok((c, p3, st2)) => if 0 <= pos && pos < p3 && p3 <= src.len() {
                        match sp_expr(src, p3, st2) {
                            Err(e) => Err(e),
                            Ok((s, p4, st3)) => if 0 <= pos && pos < p4 && p4 <= src.len() {
                                match sp_otherwise(src, p4, st3) {
                                    Ok((f, p5, st4)) => Ok(
                                        (
                                            ExprV::Conditional(
                                                Box::new(c),
                                                Box::new(s),
                                                Some(Box::new(f)),
                                            ),
                                            p5,
                                            st4,
                                        ),
                                    ),
                                    Err((e, st4)) => if is_hard_error(e) {
                                        Err((e, st4))
                                    } else {
                                        Ok(
                                            (
                                                ExprV::Conditional(Box::new(c), Box::new(s), None),
                                                p4,
                                                st4,
                                            ),
                                        )
                                    },
                                }
                            } else {
                                Err((ParseError::Unrecognized, st3))
                            },
                        }
                    } else {
                        Err((ParseError::Unrecognized, st2))
                    },
                }
            } else {
                Err((ParseError::Unrecognized, st1))
            }
        },
    }
}

/// A write to the output sink: `@`, `<<`, and the expression to write.
pub open spec fn sp_write_io(src: Seq<char>, pos: int, st: StV) -> SpRes<ExprV>
    decreases rem(src, pos), 2nat,
{
    if 0 <= pos < src.len() && src[pos] == '@' {
        let p1 = sp_space0(src, pos + 1);
        if p1 + 2 <= src.len() && src[p1] == '<' && src[p1 + 1] == '<' {
            let p2 = sp_space0(src, p1 + 2);
            if 0 <= pos && pos < p2 && p2 <= src.len() {
                match sp_expr(src, p2, st) {
                    Err(e) => Err(e),
                    Ok((rhs, p3, st1)) => Ok((ExprV::WriteIO(Box::new(rhs)), p3, st1)),
                }
            } else {
                Err((ParseError::Unrecognized, st))
            }
        } else {
            Err((ParseError::Unrecognized, st))
        }
    } else {
        Err((ParseError::Unrecognized, st))
    }
}

/// An operator suffix: `=`, `*`, `+` or `-`, and the right-hand expression.
pub open spec fn sp_oper(src: Seq<char>, pos: int, st: StV) -> SpRes<(Op, ExprV)>
    decreases rem(src, pos), 2nat,
{
    if 0 <= pos < src.len() && (src[pos] == '=' || src[pos] == '*' || src[pos] == '+' || src[pos]
        == '-') {
        let op: Op = if src[pos] == '=' {
            Op::Equ
        } else if src[pos] == '*' {
            Op::Mul
        } else if src[pos] == '+' {
            Op::Add
        } else {
            Op::Sub
        };
        let p1 = sp_space0(src, pos + 1);
        if 0 <= pos && pos < p1 && p1 <= src.len() {
            match sp_expr(src, p1, st) {
                Err(e) => Err(e),
                Ok((rhs, p2, st1)) => Ok(((op, rhs), p2, st1)),
            }
        } else {
            Err((ParseError::Unrecognized, st))
        }
    } else {
        Err((ParseError::Unrecognized, st))
    }
}

/// The first grammar alternative that parses, in this order: definition,
/// call, text, write, scope, conditional, parameter, vector.  A hard
/// failure anywhere aborts; a soft failure of an alternative keeps
/// whatever the attempt did to the phrase state and tries the next one.
pub open spec fn sp_primary(src: Seq<char>, pos: int, st: StV) -> SpRes<ExprV>
    decreases rem(src, pos), 3nat,
{
    match sp_fundef(src, pos, st) {
        Ok(r) => Ok(r),
        Err((e1, st1)) => if is_hard_error(e1) {
            Err((e1, st1))
        } else {
            match sp_funcall(src, pos, st1) {
                Ok(r) => Ok(r),
                Err((e2, st2)) => if is_hard_error(e2) {
                    Err((e2, st2))
                } else {
                    match sp_text(src, pos) {
                        Ok((t, p)) => Ok((ExprV::Text(t), p, st2)),
                        Err(_) => match sp_write_io(src, pos, st2) {
                            Ok(r) => Ok(r),
                            Err((e3, st3)) => if is_hard_error(e3) {
                                Err((e3, st3))
                            } else {
                                match sp_scope(src, pos, st3) {
                                    Ok(r) => Ok(r),
                                    Err((e4, st4)) => if is_hard_error(e4) {
                                        Err((e4, st4))
                                    } else {
                                        match sp_conditional(src, pos, st4) {
                                            Ok(r) => Ok(r),
                                            Err((e5, st5)) => if is_hard_error(e5) {
                                                Err((e5, st5))
                                            } else {
                                                match sp_param(src, pos) {
                                                    Some((k, p)) => Ok((ExprV::Param(k), p, st5)),
                                                    None => match sp_vector(src, pos) {
                                                        Some((cs, p)) => Ok(
                                                            (ExprV::Vector(cs), p, st5),
                                                        ),
                                                        None => Err(
                                                            (ParseError::Unrecognized, st5),
                                                        ),
                                                    },
                                                }
                                            },
                                        }
                                    },
                                }
                            },
                        },
                    }
                },
            }
        },
    }
}

/// An expression: a primary alternative, trailing spaces, and an optional
/// operator suffix whose right-hand side is itself a full expression.
pub open spec fn sp_expr(src: Seq<char>, pos: int, st: StV) -> SpRes<ExprV>
    decreases rem(src, pos), 4nat,
{
    match sp_primary(src, pos, st) {
        Err(e) => Err(e),
        Ok((e1, p1, st1)) => {
            let p2 = sp_space0(src, p1);
            if 0 <= pos && pos < p2 && p2 <= src.len() {
                match sp_oper(src, p2, st1) {
                    Ok(((op, rhs), p3, st2)) => Ok(
                        (ExprV::Op(Box::new(e1), op, Box::new(rhs)), p3, st2),
                    ),
                    Err((e, st2)) => if is_hard_error(e) {
                        Err((e, st2))
                    } else {
                        Ok((e1, p2, st2))
                    },
                }
            } else {
                Ok((e1, p2, st1))
            }
        },
    }
}

/// Expressions separated by whitespace that includes a newline or not; a
/// soft failure before the first expression yields the empty forest.
pub open spec fn sp_exprs_more(src: Seq<char>, pos: int, st: StV) -> SpRes<Seq<ExprV>>
    decreases rem(src, pos), 6nat,
{
    if 0 <= pos < src.len() && is_multispace_char(src[pos]) {
        let p1 = sp_multispace0(src, pos);
        if 0 <= pos && pos < p1 && p1 <= src.len() {
            match sp_expr(src, p1, st) {
                Err((e, st1)) => if is_hard_error(e) {
                    Err((e, st1))
                } else {
                    Ok((Seq::empty(), pos, st1))
                },
                Ok((e, p2, st1)) => if 0 <= pos && pos < p2 && p2 <= src.len() {
                    match sp_exprs_more(src, p2, st1) {
                        Err(x) => Err(x),
                        Ok((rest, p3, st2)) => Ok((seq![e] + rest, p3, st2)),
                    }
                } else {
                    Err((ParseError::Unrecognized, st1))
                },
            }
        } else {
            Ok((Seq::empty(), pos, st))
        }
    } else {
        Ok((Seq::empty(), pos, st))
    }
}

/// The whitespace-separated expression list of a whole program.
pub open spec fn sp_exprs(src: Seq<char>, pos: int, st: StV) -> SpRes<Seq<ExprV>>
    decreases rem(src, pos), 7nat,
{
    match sp_expr(src, pos, st) {
        Err((e, st1)) => if is_hard_error(e) {
            Err((e, st1))
        } else {
            Ok((Seq::empty(), pos, st1))
        },
        Ok((e, p1, st1)) => if 0 <= pos && pos < p1 && p1 <= src.len() {
            match sp_exprs_more(src, p1, st1) {
                Err(x) => Err(x),
                Ok((rest, p2, st2)) => Ok((seq![e] + rest, p2, st2)),
            }
        } else {
            Err((ParseError::Unrecognized, st1))
        },
    }
}

/// A whole program: optional whitespace, the expression list, optional
/// whitespace.  Only a hard failure (a reused phrase) makes it fail.
pub open spec fn sp_parse(src: Seq<char>, pos: int, st: StV) -> SpRes<Seq<ExprV>> {
    let p0 = sp_multispace0(src, pos);
    match sp_exprs(src, p0, st) {
        Err(e) => Err(e),
        Ok((es, p1, st1)) => Ok((es, sp_multispace0(src, p1), st1)),
    }
}

/// Relies on String::push: appends one character to the string.
#[verifier::external_body]
pub(crate) fn push_char(s: &mut String, c: char)
    ensures
        final(s)@ == old(s)@.push(c),
{
    s.push(c);
}

/// The characters `src[from..to]` as a fresh string.
fn chars_to_string(src: &Vec<char>, from: usize, to: usize) -> (s: String)
    requires
        from <= to <= src@.len(),
    ensures
        s@ =~= src@.subrange(from as int, to as int),
{
    let mut s = String::new();
    let mut i = from;
    while i < to
        invariant
            from <= i <= to <= src@.len(),
            s@ =~= src@.subrange(from as int, i as int),
        decreases to - i,
    {
        push_char(&mut s, src[i]);
        i = i + 1;
    }
    s
}

/// Skip inline spaces and tabs from `pos` on.
pub fn ws(src: &Vec<char>, pos: usize) -> (r: usize)
    requires
        pos <= src@.len(),
    ensures
        pos <= r <= src@.len(),
        r as int == sp_space0(src@, pos as int),
{
    let mut i = pos;
    loop
        invariant
            pos <= i <= src@.len(),
            sp_space0(src@, pos as int) == sp_space0(src@, i as int),
        decreases src@.len() - i,
    {
        if i < src.len() {
            let c = src[i];
            if c == ' ' || c == '\t' {
                i = i + 1;
                continue ;
            }
        }
        return i;
    }
}

/// Skip every kind of whitespace from `pos` on.
fn multi_ws(src: &Vec<char>, pos: usize) -> (r: usize)
    requires
        pos <= src@.len(),
    ensures
        pos <= r <= src@.len(),
        r as int == sp_multispace0(src@, pos as int),
{
    let mut i = pos;
    loop
        invariant
            pos <= i <= src@.len(),
            sp_multispace0(src@, pos as int) == sp_multispace0(src@, i as int),
        decreases src@.len() - i,
    {
        if i < src.len() {
            let c = src[i];
            if c == ' ' || c == '\t' || c == '\r' || c == '\n' {
                i = i + 1;
                continue ;
            }
        }
        return i;
    }
}

/// Whether the whole input has been consumed.
pub fn eof(src: &Vec<char>, pos: usize) -> (r: bool)
    requires
        pos <= src@.len(),
    ensures
        r == (pos as int == src@.len()),
{
    pos == src.len()
}

/// Whether the character ends a text literal.
pub fn is_text_ending_char(c: char) -> (r: bool)
    ensures
        r == text_end_char(c),
{
    c == ' ' || c == '\r' || c == '\n'
}

fn is_ident_char(c: char) -> (r: bool)
    ensures
        r == ident_char(c),
{
    (c as u32) > 127 && char_is_alphanumeric(c)
}

fn colon_run(src: &Vec<char>, pos: usize) -> (r: usize)
    requires
        pos <= src@.len(),
    ensures
        pos <= r <= src@.len(),
        r as int == sp_colon_run(src@, pos as int),
{
    let mut i = pos;
    loop
        invariant
            pos <= i <= src@.len(),
            sp_colon_run(src@, pos as int) == sp_colon_run(src@, i as int),
        decreases src@.len() - i,
    {
        if i < src.len() {
            if src[i] == ':' {
                i = i + 1;
                continue ;
            }
        }
        return i;
    }
}

fn ident_run(src: &Vec<char>, pos: usize) -> (r: usize)
    requires
        pos <= src@.len(),
    ensures
        pos <= r <= src@.len(),
        r as int == sp_ident_end(src@, pos as int),
{
    let mut i = pos;
    loop
        invariant
            pos <= i <= src@.len(),
            sp_ident_end(src@, pos as int) == sp_ident_end(src@, i as int),
        decreases src@.len() - i,
    {
        if i < src.len() {
            if is_ident_char(src[i]) {
                i = i + 1;
                continue ;
            }
        }
        return i;
    }
}

fn text_run(src: &Vec<char>, pos: usize) -> (r: usize)
    requires
        pos <= src@.len(),
    ensures
        pos <= r <= src@.len(),
        r as int == sp_text_run(src@, pos as int),
{
    let mut i = pos;
    loop
        invariant
            pos <= i <= src@.len(),
            sp_text_run(src@, pos as int) == sp_text_run(src@, i as int),
        decreases src@.len() - i,
    {
        if i < src.len() {
            let c = src[i];
            if c != '/' && !(c == ' ' || c == '\r' || c == '\n') {
                i = i + 1;
                continue ;
            }
        }
        return i;
    }
}

/// Whether `t` occurs literally at `pos`.
fn starts_with(src: &Vec<char>, pos: usize, t: &str) -> (r: bool)
    requires
        pos <= src@.len(),
    ensures
        r == sp_match(src@, pos as int, t@),
{
    let n = t.unicode_len();
    let slen = src.len();
    if n > slen - pos {
        return false;
    }
    let mut j: usize = 0;
    while j < n
        invariant
            0 <= j <= n,
            n == t@.len(),
            slen == src@.len(),
            pos + n <= slen,
            forall|k: int| 0 <= k < j ==> src@[pos + k] == t@[k],
        decreases n - j,
    {
        let sc = src[pos + j];
        if sc != t.get_char(j) {
            proof {
                assert(src@.subrange(pos as int, pos + t@.len()) == t@ ==> src@.subrange(
                    pos as int,
                    pos + t@.len(),
                )[j as int] == t@[j as int]);
            }
            return false;
        }
        j = j + 1;
    }
    proof {
        assert(src@.subrange(pos as int, pos + t@.len()) =~= t@);
    }
    true
}

/// A punctuation number: `.` or `:` chooses 1 or 2, each further `:` adds 2.
pub fn number(src: &Vec<char>, pos: usize) -> (r: Result<(u64, usize), ParseError>)
    requires
        pos <= src@.len(),
        src_ok(src@),
    ensures
        match r {
            Ok((n, p2)) => pos < p2 <= src@.len() && sp_number(src@, pos as int) == Some(
                (n, p2 as int),
            ),
            Err(e) => sp_number(src@, pos as int) is None && e == ParseError::Unrecognized,
        },
{
    if pos < src.len() {
        let c = src[pos];
        if c == '.' || c == ':' {
            let base: u64 = if c == '.' {
                1
            } else {
                2
            };
            let end = colon_run(src, pos + 1);
            let m = end - (pos + 1);
            return Ok((base + 2 * (m as u64), end));
        }
    }
    Err(ParseError::Unrecognized)
}

/// A parameter reference: `\` and a number, or `\\` for parameter 0.
pub fn param(src: &Vec<char>, pos: usize) -> (r: Result<(Param, usize), ParseError>)
    requires
        pos <= src@.len(),
        src_ok(src@),
    ensures
        match r {
            Ok((pa, p2)) => pos < p2 <= src@.len() && sp_param(src@, pos as int) == Some(
                (pa.0, p2 as int),
            ),
            Err(e) => sp_param(src@, pos as int) is None && e == ParseError::Unrecognized,
        },
{
    if pos < src.len() && src[pos] == '\\' {
        if pos + 1 < src.len() && src[pos + 1] == '\\' {
            return Ok((Param(0), pos + 2));
        }
        return match number(src, pos + 1) {
            Ok((n, p2)) => Ok((Param(n), p2)),
            Err(e) => Err(e),
        };
    }
    Err(ParseError::Unrecognized)
}

/// An identifier: a maximal nonempty run of non-ASCII alphanumerics.
pub fn ident(src: &Vec<char>, pos: usize) -> (r: Result<(Ident, usize), ParseError>)
    requires
        pos <= src@.len(),
    ensures
        match r {
            Ok((id, p2)) => pos < p2 <= src@.len() && sp_ident(src@, pos as int) == Some(
                (id.0@, p2 as int),
            ),
            Err(e) => sp_ident(src@, pos as int) is None && e == ParseError::Unrecognized,
        },
{
    let end = ident_run(src, pos);
    if end > pos {
        Ok((Ident(chars_to_string(src, pos, end)), end))
    } else {
        Err(ParseError::Unrecognized)
    }
}

fn text_scan(src: &Vec<char>, pos: usize) -> (r: Option<(String, usize)>)
    requires
        pos <= src@.len(),
    ensures
        match r {
            Some((s, p2)) => pos < p2 <= src@.len() && sp_text_scan(src@, pos as int) == Some(
                (s@, p2 as int),
            ),
            None => sp_text_scan(src@, pos as int) is None,
        },
    decreases src@.len() - pos,
{
    if pos >= src.len() || src[pos] != '/' {
        return None;
    }
    let mut acc = String::new();
    let mut p = pos + 1;
    if p < src.len() && src[p] == '/' {
        push_char(&mut acc, '/');
        p = p + 1;
    }
    if p < src.len() && src[p] == ' ' {
        push_char(&mut acc, ' ');
        p = p + 1;
    }
    let p4 = text_run(src, p);
    let part = chars_to_string(src, p, p4);
    acc.append(part.as_str());
    if p4 == src.len() {
        return Some((acc, p4));
    }
    if is_text_ending_char(src[p4]) {
        return Some((acc, p4));
    }
    if p4 > pos {
        match text_scan(src, p4) {
            Some((s2, p5)) => {
                acc.append(s2.as_str());
                Some((acc, p5))
            },
            None => None,
        }
    } else {
        None
    }
}

/// A text literal.
pub fn text(src: &Vec<char>, pos: usize) -> (r: Result<(Expr, usize), ParseError>)
    requires
        pos <= src@.len(),
    ensures
        match r {
            Ok((e, p2)) => pos < p2 <= src@.len() && e is Text && sp_text(src@, pos as int)
                == Ok::<_, ParseError>((e->Text_0@, p2 as int)),
            Err(er) => sp_text(src@, pos as int) == Err::<(Seq<char>, int), _>(er),
        },
{
    match text_scan(src, pos) {
        None => Err(ParseError::Unrecognized),
        Some((s, p)) => {
            if s.as_str().is_empty() {
                Err(ParseError::EmptyText)
            } else {
                Ok((Expr::Text(s), p))
            }
        },
    }
}

fn vcomp(src: &Vec<char>, pos: usize) -> (r: Result<(VectorComponent, usize), ParseError>)
    requires
        pos <= src@.len(),
        src_ok(src@),
    ensures
        match r {
            Ok((c, p2)) => pos < p2 <= src@.len() && sp_vcomp(src@, pos as int) == Some(
                (comp_view(c), p2 as int),
            ),
            Err(e) => sp_vcomp(src@, pos as int) is None && e == ParseError::Unrecognized,
        },
{
    match number(src, pos) {
        Ok((n, p2)) => Ok((VectorComponent::Number(n), p2)),
        Err(_) => match param(src, pos) {
            Ok((pa, p2)) => Ok((VectorComponent::Param(pa), p2)),
            Err(e) => Err(e),
        },
    }
}

fn vector_rest(src: &Vec<char>, pos: usize) -> (r: (Vec<VectorComponent>, usize))
    requires
        pos <= src@.len(),
        src_ok(src@),
    ensures
        pos <= r.1 <= src@.len(),
        sp_vector_rest(src@, pos as int) == (
            r.0@.map_values(|c: VectorComponent| comp_view(c)),
            r.1 as int,
        ),
    decreases src@.len() - pos,
{
    if pos < src.len() {
        let c0 = src[pos];
        if c0 == ' ' || c0 == '\t' {
            let p1 = ws(src, pos);
            match vcomp(src, p1) {
                Ok((c, p2)) => {
                    if p2 > pos {
                        let (mut cs, p3) = vector_rest(src, p2);
                        let ghost cs0 = cs@;
                        cs.insert(0, c);
                        proof {
                            assert(cs@.map_values(|x: VectorComponent| comp_view(x)) =~= seq![
                                comp_view(c),
                            ] + cs0.map_values(|x: VectorComponent| comp_view(x)));
                        }
                        return (cs, p3);
                    } else {
                        let e: Vec<VectorComponent> = Vec::new();
                        proof {
                            assert(e@.map_values(|x: VectorComponent| comp_view(x))
                                =~= Seq::<CompV>::empty());
                        }
                        return (e, pos);
                    }
                },
                Err(_) => {
                    let e: Vec<VectorComponent> = Vec::new();
                    proof {
                        assert(e@.map_values(|x: VectorComponent| comp_view(x))
                            =~= Seq::<CompV>::empty());
                    }
                    return (e, pos);
                },
            }
        }
    }
    let e: Vec<VectorComponent> = Vec::new();
    proof {
        assert(e@.map_values(|x: VectorComponent| comp_view(x)) =~= Seq::<CompV>::empty());
    }
    (e, pos)
}

/// A vector literal: components separated by inline spaces.
pub fn vector(src: &Vec<char>, pos: usize) -> (r: Result<(Expr, usize), ParseError>)
    requires
        pos <= src@.len(),
        src_ok(src@),
    ensures
        match r {
            Ok((e, p2)) => pos < p2 <= src@.len() && e is Vector && sp_vector(src@, pos as int)
                == Some(
                (e->Vector_0@.map_values(|c: VectorComponent| comp_view(c)), p2 as int),
            ),
            Err(er) => sp_vector(src@, pos as int) is None && er == ParseError::Unrecognized,
        },
{
    match vcomp(src, pos) {
        Err(e) => Err(e),
        Ok((c, p1)) => {
            let (mut cs, p2) = vector_rest(src, p1);
            let ghost cs0 = cs@;
            cs.insert(0, c);
            proof {
                assert(cs@.map_values(|x: VectorComponent| comp_view(x)) =~= seq![comp_view(c)]
                    + cs0.map_values(|x: VectorComponent| comp_view(x)));
            }
            Ok((Expr::Vector(cs), p2))
        },
    }
}

fn phrase_count(l: PhraseList) -> (n: usize)
    ensures
        n as int == phrases_of(l).len(),
{
    match l {
        PhraseList::Conditionals => 11,
        PhraseList::Elses => 13,
    }
}

fn phrase_of(l: PhraseList, i: usize) -> (r: &'static str)
    requires
        i < phrases_of(l).len(),
    ensures
        r@ == phrases_of(l)[i as int],
{
    match l {
        PhraseList::Conditionals => match i {
            0 => "given that",
            1 => "assuming that",
            2 => "conceding that",
            3 => "granted that",
            4 => "in case that",
            5 => "on the assumption that",
            6 => "on the occasion that",
            7 => "supposing that",
            8 => "whenever",
            9 => "wherever",
            _ => "with the condition that",
        },
        PhraseList::Elses => match i {
            0 => "otherwise",
            1 => "differently",
            2 => "any other way",
            3 => "contrarily",
            4 => "diversely",
            5 => "elseways",
            6 => "if not",
            7 => "in different circumstances",
            8 => "on the other hand",
            9 => "or else",
            10 => "or then",
            11 => "under other conditions",
            _ => "variously",
        },
    }
}

proof fn lemma_count_true_take(s: Seq<bool>, i: int)
    requires
        0 <= i < s.len(),
    ensures
        count_true(s.take(i + 1)) == count_true(s.take(i)) + if s[i] {
            1nat
        } else {
            0nat
        },
{
    assert(s.take(i + 1).drop_last() =~= s.take(i));
    assert(s.take(i + 1).last() == s[i]);
}

fn count_trues(v: &Vec<bool>) -> (n: usize)
    ensures
        n as nat == count_true(v@),
{
    let mut n: usize = 0;
    let mut i: usize = 0;
    proof {
        assert(v@.take(0) =~= Seq::<bool>::empty());
    }
    while i < v.len()
        invariant
            0 <= i <= v@.len(),
            n as nat == count_true(v@.take(i as int)),
            n <= i,
        decreases v@.len() - i,
    {
        proof {
            lemma_count_true_take(v@, i as int);
        }
        if v[i] {
            n = n + 1;
        }
        i = i + 1;
    }
    proof {
        assert(v@.take(v@.len() as int) =~= v@);
    }
    n
}

fn clear_used(v: &mut Vec<bool>)
    ensures
        final(v)@ =~= Seq::new(old(v)@.len(), |i: int| false),
{
    let n = v.len();
    let mut i: usize = 0;
    while i < n
        invariant
            0 <= i <= n,
            v@.len() == n == old(v)@.len(),
            forall|j: int| 0 <= j < i ==> v@[j] == false,
        decreases n - i,
    {
        v.set(i, false);
        i = i + 1;
    }
}

/// The phrase-rotation matcher over one of the two phrase lists: clears a
/// full used-set, takes the first phrase that matches unless it was already
/// used in this cycle, and marks it used.
#[verifier::loop_isolation(false)]
pub fn cond(used: &mut Vec<bool>, variants: PhraseList, src: &Vec<char>, pos: usize) -> (r: Result<
    usize,
    ParseError,
>)
    requires
        pos <= src@.len(),
        old(used)@.len() == phrases_of(variants).len(),
    ensures
        final(used)@.len() == old(used)@.len(),
        match r {
            Ok(p2) => pos <= p2 <= src@.len() && sp_cond(
                src@,
                pos as int,
                old(used)@,
                phrases_of(variants),
            ) == Ok::<(int, Seq<bool>), (ParseError, Seq<bool>)>((p2 as int, final(used)@)),
            Err(e) => sp_cond(src@, pos as int, old(used)@, phrases_of(variants)) == Err::<
                (int, Seq<bool>),
                (ParseError, Seq<bool>),
            >((e, final(used)@)),
        },
{
    let n = phrase_count(variants);
    let cnt = count_trues(used);
    if cnt == n {
        clear_used(used);
    }
    let ghost u1 = used@;
    let mut i: usize = 0;
    while i < n
        invariant
            0 <= i <= n,
            n as int == phrases_of(variants).len(),
            pos <= src@.len(),
            used@ == u1,
            u1.len() == n,
            sp_first_match(src@, pos as int, phrases_of(variants), 0) == sp_first_match(
                src@,
                pos as int,
                phrases_of(variants),
                i as int,
            ),
        decreases n - i,
    {
        let ph = phrase_of(variants, i);
        if starts_with(src, pos, ph) {
            if used[i] {
                return Err(ParseError::PhraseExhausted);
            }
            used.set(i, true);
            let plen = ph.unicode_len();
            let slen = src.len();
            proof {
                assert(pos + plen <= slen);
            }
            return Ok(pos + plen);
        }
        i = i + 1;
    }
    Err(ParseError::Unrecognized)
}

/// The opening `{` of a scope, with its trailing spaces.
pub fn paren_start(src: &Vec<char>, pos: usize) -> (r: Result<usize, ParseError>)
    requires
        pos <= src@.len(),
    ensures
        match r {
            Ok(p2) => pos < p2 <= src@.len() && 0 <= pos < src@.len() && src@[pos as int] == '{'
                && p2 as int == sp_space0(src@, pos as int + 1),
            Err(e) => e == ParseError::Unrecognized && !(pos < src@.len() && src@[pos as int]
                == '{'),
        },
{
    if pos < src.len() && src[pos] == '{' {
        Ok(ws(src, pos + 1))
    } else {
        Err(ParseError::Unrecognized)
    }
}

/// The closing `)` of a scope, with its trailing spaces.
pub fn paren_end(src: &Vec<char>, pos: usize) -> (r: Result<usize, ParseError>)
    requires
        pos <= src@.len(),
    ensures
        match r {
            Ok(p2) => pos < p2 <= src@.len() && 0 <= pos < src@.len() && src@[pos as int] == ')'
                && p2 as int == sp_space0(src@, pos as int + 1),
            Err(e) => e == ParseError::Unrecognized && !(pos < src@.len() && src@[pos as int]
                == ')'),
        },
{
    if pos < src.len() && src[pos] == ')' {
        Ok(ws(src, pos + 1))
    } else {
        Err(ParseError::Unrecognized)
    }
}


/// A function definition: an identifier, the currency sign, and a body.
pub fn fundef(state: &mut State, src: &Vec<char>, pos: usize) -> (r: Result<
    (Expr, usize),
    ParseError,
>)
    requires
        old(state).wf(),
        pos <= src@.len(),
        src_ok(src@),
    ensures
        final(state).wf(),
        match r {
            Ok((e, p2)) => pos < p2 <= src@.len() && sp_fundef(src@, pos as int, old(state)@)
                == Ok::<(ExprV, int, StV), (ParseError, StV)>((expr_view(e), p2 as int, final(state)@)),
            Err(er) => sp_fundef(src@, pos as int, old(state)@) == Err::<
                (ExprV, int, StV),
                (ParseError, StV),
            >((er, final(state)@)),
        },
    decreases src@.len() - pos, 2nat,
{
    match ident(src, pos) {
        Err(e) => Err(e),
        Ok((name, p1)) => {
            let p2 = ws(src, p1);
            if p2 < src.len() && src[p2] == '\u{a4}' {
                let p3 = ws(src, p2 + 1);
                if p3 > pos {
                    match expr(state, src, p3) {
                        Err(e) => Err(e),
                        Ok((body, p4)) => Ok((Expr::Definition(name, Box::new(body)), p4)),
                    }
                } else {
                    Err(ParseError::Unrecognized)
                }
            } else {
                Err(ParseError::Unrecognized)
            }
        },
    }
}

fn call_args(state: &mut State, src: &Vec<char>, pos: usize) -> (r: Result<
    (Vec<Expr>, usize),
    ParseError,
>)
    requires
        old(state).wf(),
        pos <= src@.len(),
        src_ok(src@),
    ensures
        final(state).wf(),
        match r {
            Ok((args, p2)) => pos <= p2 <= src@.len() && sp_args(src@, pos as int, old(state)@)
                == Ok::<(Seq<ExprV>, int, StV), (ParseError, StV)>((exprs_view(args@), p2 as int, final(state)@)),
            Err(er) => sp_args(src@, pos as int, old(state)@) == Err::<
                (Seq<ExprV>, int, StV),
                (ParseError, StV),
            >((er, final(state)@)),
        },
    decreases src@.len() - pos, 5nat,
{
    match expr(state, src, pos) {
        Err(e) => {
            if e == ParseError::PhraseExhausted {
                Err(e)
            } else {
                let empty: Vec<Expr> = Vec::new();
                proof {
                    assert(exprs_view(empty@) == Seq::<ExprV>::empty());
                }
                Ok((empty, pos))
            }
        },
        Ok((a, p1)) => {
            if p1 > pos {
                match call_args(state, src, p1) {
                    Err(e) => Err(e),
                    Ok((mut rest, p2)) => {
                        let ghost r0 = rest@;
                        rest.insert(0, a);
                        proof {
                            lemma_exprs_view_len(rest@);
                            lemma_exprs_view_len(r0);
                            assert(exprs_view(rest@) =~= seq![expr_view(a)] + exprs_view(r0));
                        }
                        Ok((rest, p2))
                    },
                }
            } else {
                Err(ParseError::Unrecognized)
            }
        },
    }
}

/// A function call: an identifier followed by its arguments.
pub fn funcall(state: &mut State, src: &Vec<char>, pos: usize) -> (r: Result<
    (Expr, usize),
    ParseError,
>)
    requires
        old(state).wf(),
        pos <= src@.len(),
        src_ok(src@),
    ensures
        final(state).wf(),
        match r {
            Ok((e, p2)) => pos < p2 <= src@.len() && sp_funcall(src@, pos as int, old(state)@)
                == Ok::<(ExprV, int, StV), (ParseError, StV)>((expr_view(e), p2 as int, final(state)@)),
            Err(er) => sp_funcall(src@, pos as int, old(state)@) == Err::<
                (ExprV, int, StV),
                (ParseError, StV),
            >((er, final(state)@)),
        },
    decreases src@.len() - pos, 2nat,
{
    match ident(src, pos) {
        Err(e) => Err(e),
        Ok((name, p1)) => {
            let p2 = ws(src, p1);
            if p2 > pos {
                match call_args(state, src, p2) {
                    Err(e) => Err(e),
                    Ok((args, p3)) => Ok((Expr::Call(name, args), p3)),
                }
            } else {
                Err(ParseError::Unrecognized)
            }
        },
    }
}

fn scope_end(src: &Vec<char>, pos: usize) -> (r: Option<usize>)
    requires
        pos <= src@.len(),
    ensures
        match r {
            Some(p2) => pos <= p2 <= src@.len() && sp_scope_end(src@, pos as int) == Some(
                p2 as int,
            ),
            None => sp_scope_end(src@, pos as int) is None,
        },
{
    if pos < src.len() {
        let c = src[pos];
        if c == ')' {
            return Some(ws(src, pos + 1));
        }
        if c == '\n' {
            return Some(pos);
        }
        if c == '\r' && pos + 1 < src.len() && src[pos + 1] == '\n' {
            return Some(pos);
        }
        return None;
    }
    Some(pos)
}

/// A scope: `{`, an expression, and a terminator (a `)`, a peeked newline,
/// or the end of input).
pub fn scope(state: &mut State, src: &Vec<char>, pos: usize) -> (r: Result<
    (Expr, usize),
    ParseError,
>)
    requires
        old(state).wf(),
        pos <= src@.len(),
        src_ok(src@),
    ensures
        final(state).wf(),
        match r {
            Ok((e, p2)) => pos < p2 <= src@.len() && sp_scope(src@, pos as int, old(state)@)
                == Ok::<(ExprV, int, StV), (ParseError, StV)>((expr_view(e), p2 as int, final(state)@)),
            Err(er) => sp_scope(src@, pos as int, old(state)@) == Err::<
                (ExprV, int, StV),
                (ParseError, StV),
            >((er, final(state)@)),
        },
    decreases src@.len() - pos, 2nat,
{
    match paren_start(src, pos) {
        Err(e) => Err(e),
        Ok(p1) => {
            if p1 > pos {
                match expr(state, src, p1) {
                    Err(e) => Err(e),
                    Ok((body, p2)) => match scope_end(src, p2) {
                        Some(p3) => Ok((Expr::Scope(Box::new(body)), p3)),
                        None => Err(ParseError::Unrecognized),
                    },
                }
            } else {
                Err(ParseError::Unrecognized)
            }
        },
    }
}

/// An else branch: an else phrase (under rotation), then an expression.
pub fn otherwise(state: &mut State, src: &Vec<char>, pos: usize) -> (r: Result<
    (Expr, usize),
    ParseError,
>)
    requires
        old(state).wf(),
        pos <= src@.len(),
        src_ok(src@),
    ensures
        final(state).wf(),
        match r {
            Ok((e, p2)) => pos < p2 <= src@.len() && sp_otherwise(src@, pos as int, old(state)@)
                == Ok::<(ExprV, int, StV), (ParseError, StV)>((expr_view(e), p2 as int, final(state)@)),
            Err(er) => sp_otherwise(src@, pos as int, old(state)@) == Err::<
                (ExprV, int, StV),
                (ParseError, StV),
            >((er, final(state)@)),
        },
    decreases src@.len() - pos, 2nat,
{
    match cond(&mut state.used_elses, PhraseList::Elses, src, pos) {
        Err(e) => Err(e),
        Ok(p1) => {
            let p2 = ws(src, p1);
            if p2 > pos {
                expr(state, src, p2)
            } else {
                Err(ParseError::Unrecognized)
            }
        },
    }
}

/// A conditional: an opener phrase (under rotation), a condition, a success
/// branch, and an optional else branch.
pub fn conditional(state: &mut State, src: &Vec<char>, pos: usize) -> (r: Result<
    (Expr, usize),
    ParseError,
>)
    requires
        old(state).wf(),
        pos <= src@.len(),
        src_ok(src@),
    ensures
        final(state).wf(),
        match r {
            Ok((e, p2)) => pos < p2 <= src@.len() && sp_conditional(src@, pos as int, old(state)@)
                == Ok::<(ExprV, int, StV), (ParseError, StV)>((expr_view(e), p2 as int, final(state)@)),
            Err(er) => sp_conditional(src@, pos as int, old(state)@) == Err::<
                (ExprV, int, StV),
                (ParseError, StV),
            >((er, final(state)@)),
        },
    decreases src@.len() - pos, 2nat,
{
    match cond(&mut state.used_conditionals, PhraseList::Conditionals, src, pos) {
        Err(e) => Err(e),
        Ok(p1) => {
            let p2 = ws(src, p1);
            if p2 > pos {
                match expr(state, src, p2) {
                    Err(e) => Err(e),
                    Ok((cexp, p3)) => {
                        if p3 > pos {
                            match expr(state, src, p3) {
                                Err(e) => Err(e),
                                Ok((sexp, p4)) => {
                                    if p4 > pos {
                                        match otherwise(state, src, p4) {
                                            Ok((fexp, p5)) => Ok(
                                                (
                                                    Expr::Conditional {
                                                        condition: Box::new(cexp),
                                                        success: Box::new(sexp),
                                                        failure: Box::new(Some(fexp)),
                                                    },
                                                    p5,
                                                ),
                                            ),
                                            Err(e) => {
                                                if e == ParseError::PhraseExhausted {
                                                    Err(e)
                                                } else {
                                                    Ok(
                                                        (
                                                            Expr::Conditional {
                                                                condition: Box::new(cexp),
                                                                success: Box::new(sexp),
                                                                failure: Box::new(None),
                                                            },
                                                            p4,
                                                        ),
                                                    )
                                                }
                                            },
                                        }
                                    } else {
                                        Err(ParseError::Unrecognized)
                                    }
                                },
                            }
                        } else {
                            Err(ParseError::Unrecognized)
                        }
                    },
                }
            } else {
                Err(ParseError::Unrecognized)
            }
        },
    }
}

/// A write to the output sink: `@`, `<<`, and the expression to write.
pub fn write_io(state: &mut State, src: &Vec<char>, pos: usize) -> (r: Result<
    (Expr, usize),
    ParseError,
>)
    requires
        old(state).wf(),
        pos <= src@.len(),
        src_ok(src@),
    ensures
        final(state).wf(),
        match r {
            Ok((e, p2)) => pos < p2 <= src@.len() && sp_write_io(src@, pos as int, old(state)@)
                == Ok::<(ExprV, int, StV), (ParseError, StV)>((expr_view(e), p2 as int, final(state)@)),
            Err(er) => sp_write_io(src@, pos as int, old(state)@) == Err::<
                (ExprV, int, StV),
                (ParseError, StV),
            >((er, final(state)@)),
        },
    decreases src@.len() - pos, 2nat,
{
    if pos < src.len() && src[pos] == '@' {
        let p1 = ws(src, pos + 1);
        if p1 + 2 <= src.len() && src[p1] == '<' && src[p1 + 1] == '<' {
            let p2 = ws(src, p1 + 2);
            if p2 > pos {
                match expr(state, src, p2) {
                    Err(e) => Err(e),
                    Ok((rhs, p3)) => Ok((Expr::WriteIO(Box::new(rhs)), p3)),
                }
            } else {
                Err(ParseError::Unrecognized)
            }
        } else {
            Err(ParseError::Unrecognized)
        }
    } else {
        Err(ParseError::Unrecognized)
    }
}

/// An operator suffix: `=`, `*`, `+` or `-`, and the right-hand expression.
pub fn oper(state: &mut State, src: &Vec<char>, pos: usize) -> (r: Result<
    ((Op, Expr), usize),
    ParseError,
>)
    requires
        old(state).wf(),
        pos <= src@.len(),
        src_ok(src@),
    ensures
        final(state).wf(),
        match r {
            Ok(((op, rhs), p2)) => pos < p2 <= src@.len() && sp_oper(src@, pos as int, old(state)@)
                == Ok::<((Op, ExprV), int, StV), (ParseError, StV)>((
                (op, expr_view(rhs)),
                p2 as int,
                final(state)@,
            )),
            Err(er) => sp_oper(src@, pos as int, old(state)@) == Err::<
                ((Op, ExprV), int, StV),
                (ParseError, StV),
            >((er, final(state)@)),
        },
    decreases src@.len() - pos, 2nat,
{
    if pos < src.len() {
        let c = src[pos];
        if c == '=' || c == '*' || c == '+' || c == '-' {
            let op: Op = if c == '=' {
                Op::Equ
            } else if c == '*' {
                Op::Mul
            } else if c == '+' {
                Op::Add
            } else {
                Op::Sub
            };
            let p1 = ws(src, pos + 1);
            if p1 > pos {
                return match expr(state, src, p1) {
                    Err(e) => Err(e),
                    Ok((rhs, p2)) => Ok(((op, rhs), p2)),
                };
            }
            return Err(ParseError::Unrecognized);
        }
    }
    Err(ParseError::Unrecognized)
}

fn primary(state: &mut State, src: &Vec<char>, pos: usize) -> (r: Result<
    (Expr, usize),
    ParseError,
>)
    requires
        old(state).wf(),
        pos <= src@.len(),
        src_ok(src@),
    ensures
        final(state).wf(),
        match r {
            Ok((e, p2)) => pos < p2 <= src@.len() && sp_primary(src@, pos as int, old(state)@)
                == Ok::<(ExprV, int, StV), (ParseError, StV)>((expr_view(e), p2 as int, final(state)@)),
            Err(er) => sp_primary(src@, pos as int, old(state)@) == Err::<
                (ExprV, int, StV),
                (ParseError, StV),
            >((er, final(state)@)),
        },
    decreases src@.len() - pos, 3nat,
{
    match fundef(state, src, pos) {
        Ok(v) => {
            return Ok(v);
        },
        Err(e1) => {
            if e1 == ParseError::PhraseExhausted {
                return Err(e1);
            }
        },
    }
    match funcall(state, src, pos) {
        Ok(v) => {
            return Ok(v);
        },
        Err(e2) => {
            if e2 == ParseError::PhraseExhausted {
                return Err(e2);
            }
        },
    }
    match text(src, pos) {
        Ok(v) => {
            return Ok(v);
        },
        Err(_) => {},
    }
    match write_io(state, src, pos) {
        Ok(v) => {
            return Ok(v);
        },
        Err(e3) => {
            if e3 == ParseError::PhraseExhausted {
                return Err(e3);
            }
        },
    }
    match scope(state, src, pos) {
        Ok(v) => {
            return Ok(v);
        },
        Err(e4) => {
            if e4 == ParseError::PhraseExhausted {
                return Err(e4);
            }
        },
    }
    match conditional(state, src, pos) {
        Ok(v) => {
            return Ok(v);
        },
        Err(e5) => {
            if e5 == ParseError::PhraseExhausted {
                return Err(e5);
            }
        },
    }
    match param(src, pos) {
        Ok((pa, p)) => {
            return Ok((Expr::Param(pa), p));
        },
        Err(_) => {},
    }
    match vector(src, pos) {
        Ok(v) => Ok(v),
        Err(e) => Err(e),
    }
}

/// An expression: a primary alternative, trailing spaces, and an optional
/// operator suffix.
pub fn expr(state: &mut State, src: &Vec<char>, pos: usize) -> (r: Result<
    (Expr, usize),
    ParseError,
>)
    requires
        old(state).wf(),
        pos <= src@.len(),
        src_ok(src@),
    ensures
        final(state).wf(),
        match r {
            Ok((e, p2)) => pos < p2 <= src@.len() && sp_expr(src@, pos as int, old(state)@)
                == Ok::<(ExprV, int, StV), (ParseError, StV)>((expr_view(e), p2 as int, final(state)@)),
            Err(er) => sp_expr(src@, pos as int, old(state)@) == Err::<
                (ExprV, int, StV),
                (ParseError, StV),
            >((er, final(state)@)),
        },
    decreases src@.len() - pos, 4nat,
{
    match primary(state, src, pos) {
        Err(e) => Err(e),
        Ok((e1, p1)) => {
            let p2 = ws(src, p1);
            if p2 > pos {
                match oper(state, src, p2) {
                    Ok(((op, rhs), p3)) => Ok((Expr::Op(Box::new(e1), op, Box::new(rhs)), p3)),
                    Err(er) => {
                        if er == ParseError::PhraseExhausted {
                            Err(er)
                        } else {
                            Ok((e1, p2))
                        }
                    },
                }
            } else {
                Ok((e1, p2))
            }
        },
    }
}

fn parse_exprs_more(state: &mut State, src: &Vec<char>, pos: usize) -> (r: Result<
    (Vec<Expr>, usize),
    ParseError,
>)
    requires
        old(state).wf(),
        pos <= src@.len(),
        src_ok(src@),
    ensures
        final(state).wf(),
        match r {
            Ok((es, p2)) => pos <= p2 <= src@.len() && sp_exprs_more(src@, pos as int, old(state)@)
                == Ok::<(Seq<ExprV>, int, StV), (ParseError, StV)>((exprs_view(es@), p2 as int, final(state)@)),
            Err(er) => sp_exprs_more(src@, pos as int, old(state)@) == Err::<
                (Seq<ExprV>, int, StV),
                (ParseError, StV),
            >((er, final(state)@)),
        },
    decreases src@.len() - pos, 6nat,
{
    if pos < src.len() {
        let c = src[pos];
        if c == ' ' || c == '\t' || c == '\r' || c == '\n' {
            let p1 = multi_ws(src, pos);
            if p1 > pos {
                return match expr(state, src, p1) {
                    Err(e) => {
                        if e == ParseError::PhraseExhausted {
                            Err(e)
                        } else {
                            let empty: Vec<Expr> = Vec::new();
                            proof {
                                assert(exprs_view(empty@) == Seq::<ExprV>::empty());
                            }
                            Ok((empty, pos))
                        }
                    },
                    Ok((e, p2)) => {
                        if p2 > pos {
                            match parse_exprs_more(state, src, p2) {
                                Err(x) => Err(x),
                                Ok((mut rest, p3)) => {
                                    let ghost r0 = rest@;
                                    rest.insert(0, e);
                                    proof {
                                        lemma_exprs_view_len(rest@);
                                        lemma_exprs_view_len(r0);
                                        assert(exprs_view(rest@) =~= seq![expr_view(e)]
                                            + exprs_view(r0));
                                    }
                                    Ok((rest, p3))
                                },
                            }
                        } else {
                            Err(ParseError::Unrecognized)
                        }
                    },
                };
            } else {
                let empty: Vec<Expr> = Vec::new();
                proof {
                    assert(exprs_view(empty@) == Seq::<ExprV>::empty());
                }
                return Ok((empty, pos));
            }
        }
    }
    let empty: Vec<Expr> = Vec::new();
    proof {
        assert(exprs_view(empty@) == Seq::<ExprV>::empty());
    }
    Ok((empty, pos))
}

fn parse_exprs(state: &mut State, src: &Vec<char>, pos: usize) -> (r: Result<
    (Vec<Expr>, usize),
    ParseError,
>)
    requires
        old(state).wf(),
        pos <= src@.len(),
        src_ok(src@),
    ensures
        final(state).wf(),
        match r {
            Ok((es, p2)) => pos <= p2 <= src@.len() && sp_exprs(src@, pos as int, old(state)@)
                == Ok::<(Seq<ExprV>, int, StV), (ParseError, StV)>((exprs_view(es@), p2 as int, final(state)@)),
            Err(er) => sp_exprs(src@, pos as int, old(state)@) == Err::<
                (Seq<ExprV>, int, StV),
                (ParseError, StV),
            >((er, final(state)@)),
        },
    decreases src@.len() - pos, 7nat,
{
    match expr(state, src, pos) {
        Err(e) => {
            if e == ParseError::PhraseExhausted {
                Err(e)
            } else {
                let empty: Vec<Expr> = Vec::new();
                proof {
                    assert(exprs_view(empty@) == Seq::<ExprV>::empty());
                }
                Ok((empty, pos))
            }
        },
        Ok((e, p1)) => {
            if p1 > pos {
                match parse_exprs_more(state, src, p1) {
                    Err(x) => Err(x),
                    Ok((mut rest, p2)) => {
                        let ghost r0 = rest@;
                        rest.insert(0, e);
                        proof {
                            lemma_exprs_view_len(rest@);
                            lemma_exprs_view_len(r0);
                            assert(exprs_view(rest@) =~= seq![expr_view(e)] + exprs_view(r0));
                        }
                        Ok((rest, p2))
                    },
                }
            } else {
                Err(ParseError::Unrecognized)
            }
        },
    }
}

fn to_chars(s: &str) -> (r: Vec<char>)
    ensures
        r@ == s@,
{
    let n = s.unicode_len();
    let mut r: Vec<char> = Vec::new();
    let mut i: usize = 0;
    while i < n
        invariant
            0 <= i <= n,
            n == s@.len(),
            r@ =~= s@.take(i as int),
        decreases n - i,
    {
        r.push(s.get_char(i));
        proof {
            assert(r@ =~= s@.take(i + 1 as int));
        }
        i = i + 1;
    }
    proof {
        assert(s@.take(n as int) =~= s@);
    }
    r
}

/// Parse a whole program: a whitespace-delimited sequence of expressions,
/// optionally surrounded by whitespace.  On success the forest and the
/// position after everything that was consumed come back; unconsumed input
/// begins at that position.  Only a reused phrase makes the parse fail.
pub fn parse(state: &mut State, code: &str) -> (r: Result<(Vec<Expr>, usize), ParseError>)
    requires
        old(state).wf(),
        code@.len() <= 0x1000_0000,
    ensures
        final(state).wf(),
        match r {
            Ok((es, p2)) => p2 <= code@.len() && sp_parse(code@, 0, old(state)@) == Ok::<
                (Seq<ExprV>, int, StV),
                (ParseError, StV),
            >((exprs_view(es@), p2 as int, final(state)@)),
            Err(er) => er == ParseError::PhraseExhausted && sp_parse(code@, 0, old(state)@)
                == Err::<(Seq<ExprV>, int, StV), (ParseError, StV)>((er, final(state)@)),
        },
{
    proof {
        lemma_parse_fails_only_on_phrase_reuse(code@, old(state)@);
    }
    let src = to_chars(code);
    let p0 = multi_ws(&src, 0);
    match parse_exprs(state, &src, p0) {
        Err(e) => Err(e),
        Ok((es, p1)) => {
            let p2 = multi_ws(&src, p1);
            Ok((es, p2))
        },
    }
}


/// The punctuation encoding of a positive number: `.` or `:` for 1 or 2,
/// then one more `:` for every further 2.
pub open spec fn encode_number(n: u64) -> Seq<char> {
    if n % 2 == 1 {
        seq!['.'] + repeat_colons(((n - 1) / 2) as nat)
    } else {
        seq![':'] + repeat_colons(((n - 2) / 2) as nat)
    }
}

pub open spec fn repeat_colons(k: nat) -> Seq<char>
    decreases k,
{
    if k == 0 {
        Seq::empty()
    } else {
        repeat_colons((k - 1) as nat).push(':')
    }
}

proof fn lemma_repeat_colons(k: nat)
    ensures
        repeat_colons(k).len() == k,
        forall|j: int| 0 <= j < k ==> repeat_colons(k)[j] == ':',
    decreases k,
{
    if k > 0 {
        lemma_repeat_colons((k - 1) as nat);
    }
}

proof fn lemma_colon_run_to_end(src: Seq<char>, pos: int)
    requires
        0 <= pos <= src.len(),
        forall|j: int| pos <= j < src.len() ==> src[j] == ':',
    ensures
        sp_colon_run(src, pos) == src.len(),
    decreases rem(src, pos),
{
    if pos < src.len() {
        lemma_colon_run_to_end(src, pos + 1);
    }
}

proof fn lemma_first_match_none(src: Seq<char>, pos: int, phrases: Seq<Seq<char>>, k: int)
    requires
        0 <= pos <= src.len(),
        forall|j: int| #![trigger phrases[j]] k <= j < phrases.len() ==> phrases[j].len() > 0 && (
        pos < src.len() ==> src[pos] != phrases[j][0]),
    ensures
        sp_first_match(src, pos, phrases, k) is None,
    decreases gap(k, phrases.len() as int),
{
    if 0 <= k < phrases.len() {
        if sp_match(src, pos, phrases[k]) {
            assert(src.subrange(pos, pos + phrases[k].len())[0] == src[pos]);
            assert(false);
        }
        lemma_first_match_none(src, pos, phrases, k + 1);
    }
}

proof fn lemma_if_phrase_heads()
    ensures
        forall|i: int|
            #![trigger if_phrases()[i]]
            0 <= i < if_phrases().len() ==> if_phrases()[i].len() > 0 && if_phrases()[i][0] != '.'
                && if_phrases()[i][0] != ':' && if_phrases()[i][0] != ' ' && if_phrases()[i][0]
                != '\t' && if_phrases()[i][0] != '\r' && if_phrases()[i][0] != '\n',
{
    reveal_strlit("given that");
    reveal_strlit("assuming that");
    reveal_strlit("conceding that");
    reveal_strlit("granted that");
    reveal_strlit("in case that");
    reveal_strlit("on the assumption that");
    reveal_strlit("on the occasion that");
    reveal_strlit("supposing that");
    reveal_strlit("whenever");
    reveal_strlit("wherever");
    reveal_strlit("with the condition that");
    assert forall|i: int| 0 <= i < if_phrases().len() implies #[trigger] if_phrases()[i].len() > 0
        && if_phrases()[i][0] != '.' && if_phrases()[i][0] != ':' && if_phrases()[i][0] != ' '
        && if_phrases()[i][0] != '\t' && if_phrases()[i][0] != '\r' && if_phrases()[i][0]
        != '\n' by {
        if i == 0 {
            assert(if_phrases()[0] == "given that"@);
        } else if i == 1 {
            assert(if_phrases()[1] == "assuming that"@);
        } else if i == 2 {
            assert(if_phrases()[2] == "conceding that"@);
        } else if i == 3 {
            assert(if_phrases()[3] == "granted that"@);
        } else if i == 4 {
            assert(if_phrases()[4] == "in case that"@);
        } else if i == 5 {
            assert(if_phrases()[5] == "on the assumption that"@);
        } else if i == 6 {
            assert(if_phrases()[6] == "on the occasion that"@);
        } else if i == 7 {
            assert(if_phrases()[7] == "supposing that"@);
        } else if i == 8 {
            assert(if_phrases()[8] == "whenever"@);
        } else if i == 9 {
            assert(if_phrases()[9] == "wherever"@);
        } else {
            assert(if_phrases()[10] == "with the condition that"@);
        }
    }
}

proof fn lemma_count_all_false(n: nat)
    ensures
        count_true(Seq::new(n, |i: int| false)) == 0,
    decreases n,
{
    if n > 0 {
        lemma_count_all_false((n - 1) as nat);
        assert(Seq::new(n, |i: int| false).drop_last() =~= Seq::new(
            (n - 1) as nat,
            |i: int| false,
        ));
    }
}

/// Reusing a conditional or else phrase before its whole list has been
/// used is a hard failure: when the used-set is not yet full and the first
/// phrase that matches is already used, the matcher reports the phrase as
/// exhausted, which aborts the whole parse.
pub proof fn lemma_phrase_reuse_fails(
    src: Seq<char>,
    pos: int,
    used: Seq<bool>,
    phrases: Seq<Seq<char>>,
    i: int,
)
    requires
        count_true(used) != phrases.len(),
        sp_first_match(src, pos, phrases, 0) == Some(i),
        0 <= i < used.len(),
        used[i],
    ensures
        sp_cond(src, pos, used, phrases) == Err::<(int, Seq<bool>), (ParseError, Seq<bool>)>(
            (ParseError::PhraseExhausted, used),
        ),
{
}

/// Scope termination by `)`, by a peeked newline and by the end of input
/// all produce the same AST: whichever of the three closed the scope, the
/// result is the scope of the body that the inner expression parsed to.
pub proof fn lemma_scope_terminators(
    src: Seq<char>,
    pos: int,
    st: StV,
    body: ExprV,
    p2: int,
    st2: StV,
    p3: int,
)
    requires
        0 <= pos < src.len(),
        src[pos] == '{',
        pos < sp_space0(src, pos + 1) <= src.len(),
        sp_expr(src, sp_space0(src, pos + 1), st) == Ok::<(ExprV, int, StV), (ParseError, StV)>(
            (body, p2, st2),
        ),
        sp_scope_end(src, p2) == Some(p3),
    ensures
        sp_scope(src, pos, st) == Ok::<(ExprV, int, StV), (ParseError, StV)>(
            (ExprV::Scope(Box::new(body)), p3, st2),
        ),
{
}

/// The punctuation encoding of every positive number parses, alone, to a
/// one-expression forest holding the one-component vector of that number.
pub proof fn lemma_number_encoding_parses(n: u64)
    requires
        n >= 1,
    ensures
        sp_parse(encode_number(n), 0, StV::init()) == Ok::<
            (Seq<ExprV>, int, StV),
            (ParseError, StV),
        >(
            (
                seq![ExprV::Vector(seq![CompV::Number(n)])],
                encode_number(n).len() as int,
                StV::init(),
            ),
        ),
{
    let src = encode_number(n);
    let st = StV::init();
    let ghost k: nat = if n % 2 == 1 {
        ((n - 1) / 2) as nat
    } else {
        ((n - 2) / 2) as nat
    };
    lemma_repeat_colons(k);
    assert(src.len() == 1 + k);
    assert(src[0] == '.' || src[0] == ':');
    assert(forall|j: int| 1 <= j < src.len() ==> src[j] == ':');
    // the number token
    lemma_colon_run_to_end(src, 1);
    assert(sp_number(src, 0) == Some((n, src.len() as int)));
    // no other alternative matches
    assert(sp_ident_end(src, 0) == 0);
    assert(sp_ident(src, 0) is None);
    assert(sp_fundef(src, 0, st) == Err::<(ExprV, int, StV), (ParseError, StV)>(
        (ParseError::Unrecognized, st),
    ));
    assert(sp_funcall(src, 0, st) == Err::<(ExprV, int, StV), (ParseError, StV)>(
        (ParseError::Unrecognized, st),
    ));
    assert(sp_text_scan(src, 0) is None);
    assert(sp_text(src, 0) == Err::<(Seq<char>, int), ParseError>(ParseError::Unrecognized));
    assert(sp_write_io(src, 0, st) == Err::<(ExprV, int, StV), (ParseError, StV)>(
        (ParseError::Unrecognized, st),
    ));
    assert(sp_scope(src, 0, st) == Err::<(ExprV, int, StV), (ParseError, StV)>(
        (ParseError::Unrecognized, st),
    ));
    lemma_if_phrase_heads();
    lemma_first_match_none(src, 0, if_phrases(), 0);
    lemma_count_all_false(11);
    assert(count_true(st.ifs) == 0);
    assert(sp_cond(src, 0, st.ifs, if_phrases()) == Err::<(int, Seq<bool>), (ParseError, Seq<
        bool,
    >)>((ParseError::Unrecognized, st.ifs)));
    assert(StV { ifs: st.ifs, elses: st.elses } == st);
    assert(sp_conditional(src, 0, st) == Err::<(ExprV, int, StV), (ParseError, StV)>(
        (ParseError::Unrecognized, st),
    ));
    assert(sp_param(src, 0) is None);
    // the vector token
    assert(sp_vcomp(src, 0) == Some((CompV::Number(n), src.len() as int)));
    assert(sp_vector_rest(src, src.len() as int) == (Seq::<CompV>::empty(), src.len() as int));
    assert(sp_vector(src, 0) == Some((seq![CompV::Number(n)], src.len() as int)));
    assert(sp_primary(src, 0, st) == Ok::<(ExprV, int, StV), (ParseError, StV)>(
        (ExprV::Vector(seq![CompV::Number(n)]), src.len() as int, st),
    ));
    // no trailing spaces, no operator suffix, nothing after
    assert(sp_space0(src, src.len() as int) == src.len());
    assert(sp_oper(src, src.len() as int, st) == Err::<((Op, ExprV), int, StV), (ParseError, StV)>(
        (ParseError::Unrecognized, st),
    ));
    assert(sp_expr(src, 0, st) == Ok::<(ExprV, int, StV), (ParseError, StV)>(
        (ExprV::Vector(seq![CompV::Number(n)]), src.len() as int, st),
    ));
    assert(sp_exprs_more(src, src.len() as int, st) == Ok::<
        (Seq<ExprV>, int, StV),
        (ParseError, StV),
    >((Seq::empty(), src.len() as int, st)));
    assert(sp_exprs(src, 0, st) == Ok::<(Seq<ExprV>, int, StV), (ParseError, StV)>(
        (seq![ExprV::Vector(seq![CompV::Number(n)])], src.len() as int, st),
    ));
    assert(sp_multispace0(src, 0) == 0);
    assert(sp_multispace0(src, src.len() as int) == src.len());
}


proof fn lemma_scan_ranges(src: Seq<char>, pos: int)
    requires
        0 <= pos <= src.len(),
    ensures
        pos <= sp_space0(src, pos) <= src.len(),
        pos <= sp_multispace0(src, pos) <= src.len(),
        pos <= sp_colon_run(src, pos) <= src.len(),
        pos <= sp_ident_end(src, pos) <= src.len(),
        pos <= sp_text_run(src, pos) <= src.len(),
    decreases rem(src, pos),
{
    if pos < src.len() {
        lemma_scan_ranges(src, pos + 1);
    }
}

proof fn lemma_number_progress(src: Seq<char>, pos: int)
    requires
        0 <= pos <= src.len(),
    ensures
        sp_number(src, pos) matches Some((n, p2)) ==> pos < p2 <= src.len(),
{
    if pos < src.len() {
        lemma_scan_ranges(src, pos + 1);
    }
}

proof fn lemma_param_progress(src: Seq<char>, pos: int)
    requires
        0 <= pos <= src.len(),
    ensures
        sp_param(src, pos) matches Some((k, p2)) ==> pos < p2 <= src.len(),
{
    if pos < src.len() {
        lemma_number_progress(src, pos + 1);
    }
}

proof fn lemma_vcomp_progress(src: Seq<char>, pos: int)
    requires
        0 <= pos <= src.len(),
    ensures
        sp_vcomp(src, pos) matches Some((c, p2)) ==> pos < p2 <= src.len(),
{
    lemma_number_progress(src, pos);
    lemma_param_progress(src, pos);
}

proof fn lemma_vector_rest_range(src: Seq<char>, pos: int)
    requires
        0 <= pos <= src.len(),
    ensures
        pos <= sp_vector_rest(src, pos).1 <= src.len(),
    decreases rem(src, pos),
{
    if 0 <= pos < src.len() && is_space_char(src[pos]) {
        lemma_scan_ranges(src, pos);
        let p1 = sp_space0(src, pos);
        lemma_vcomp_progress(src, p1);
        match sp_vcomp(src, p1) {
            Some((c, p2)) => {
                if 0 <= pos && pos < p2 && p2 <= src.len() {
                    lemma_vector_rest_range(src, p2);
                }
            },
            None => {},
        }
    }
}

proof fn lemma_vector_progress(src: Seq<char>, pos: int)
    requires
        0 <= pos <= src.len(),
    ensures
        sp_vector(src, pos) matches Some((cs, p2)) ==> pos < p2 <= src.len(),
{
    lemma_vcomp_progress(src, pos);
    match sp_vcomp(src, pos) {
        Some((c, p1)) => {
            lemma_vector_rest_range(src, p1);
        },
        None => {},
    }
}

proof fn lemma_text_scan_progress(src: Seq<char>, pos: int)
    requires
        0 <= pos <= src.len(),
    ensures
        sp_text_scan(src, pos) matches Some((t, p2)) ==> pos < p2 <= src.len(),
    decreases rem(src, pos),
{
    if 0 <= pos < src.len() && src[pos] == '/' {
        let p1 = pos + 1;
        let p2: int = if p1 < src.len() && src[p1] == '/' {
            p1 + 1
        } else {
            p1
        };
        let p3: int = if p2 < src.len() && src[p2] == ' ' {
            p2 + 1
        } else {
            p2
        };
        lemma_scan_ranges(src, p3);
        let p4 = sp_text_run(src, p3);
        if !(p4 >= src.len() || text_end_char(src[p4])) && pos < p4 && p4 <= src.len() {
            lemma_text_scan_progress(src, p4);
        }
    }
}

proof fn lemma_cond_progress(src: Seq<char>, pos: int, used: Seq<bool>, phrases: Seq<Seq<char>>)
    requires
        0 <= pos <= src.len(),
        forall|j: int| #![trigger phrases[j]] 0 <= j < phrases.len() ==> phrases[j].len() > 0,
    ensures
        sp_cond(src, pos, used, phrases) matches Ok((p2, u)) ==> pos < p2 <= src.len(),
{
    lemma_first_match_in_range(src, pos, phrases, 0);
}

proof fn lemma_first_match_in_range(src: Seq<char>, pos: int, phrases: Seq<Seq<char>>, k: int)
    requires
        0 <= pos <= src.len(),
        forall|j: int| #![trigger phrases[j]] 0 <= j < phrases.len() ==> phrases[j].len() > 0,
    ensures
        sp_first_match(src, pos, phrases, k) matches Some(i) ==> 0 <= i < phrases.len() && pos
            < pos + phrases[i].len() <= src.len(),
    decreases gap(k, phrases.len() as int),
{
    if 0 <= k < phrases.len() && !sp_match(src, pos, phrases[k]) {
        lemma_first_match_in_range(src, pos, phrases, k + 1);
    }
}

proof fn lemma_phrases_nonempty()
    ensures
        forall|j: int| #![trigger if_phrases()[j]] 0 <= j < if_phrases().len()
            ==> if_phrases()[j].len() > 0,
        forall|j: int| #![trigger else_phrases()[j]] 0 <= j < else_phrases().len()
            ==> else_phrases()[j].len() > 0,
{
    lemma_if_phrase_heads();
    reveal_strlit("otherwise");
    reveal_strlit("differently");
    reveal_strlit("any other way");
    reveal_strlit("contrarily");
    reveal_strlit("diversely");
    reveal_strlit("elseways");
    reveal_strlit("if not");
    reveal_strlit("in different circumstances");
    reveal_strlit("on the other hand");
    reveal_strlit("or else");
    reveal_strlit("or then");
    reveal_strlit("under other conditions");
    reveal_strlit("variously");
    assert forall|j: int| 0 <= j < else_phrases().len() implies #[trigger] else_phrases()[j].len()
        > 0 by {
        if j == 0 {
            assert(else_phrases()[0] == "otherwise"@);
        } else if j == 1 {
            assert(else_phrases()[1] == "differently"@);
        } else if j == 2 {
            assert(else_phrases()[2] == "any other way"@);
        } else if j == 3 {
            assert(else_phrases()[3] == "contrarily"@);
        } else if j == 4 {
            assert(else_phrases()[4] == "diversely"@);
        } else if j == 5 {
            assert(else_phrases()[5] == "elseways"@);
        } else if j == 6 {
            assert(else_phrases()[6] == "if not"@);
        } else if j == 7 {
            assert(else_phrases()[7] == "in different circumstances"@);
        } else if j == 8 {
            assert(else_phrases()[8] == "on the other hand"@);
        } else if j == 9 {
            assert(else_phrases()[9] == "or else"@);
        } else if j == 10 {
            assert(else_phrases()[10] == "or then"@);
        } else if j == 11 {
            assert(else_phrases()[11] == "under other conditions"@);
        } else {
            assert(else_phrases()[12] == "variously"@);
        }
    }
}

proof fn lemma_fundef_progress(src: Seq<char>, pos: int, st: StV)
    requires
        0 <= pos <= src.len(),
    ensures
        sp_fundef(src, pos, st) matches Ok((e, p2, st2)) ==> pos < p2 <= src.len(),
    decreases rem(src, pos), 8nat,
{
    lemma_scan_ranges(src, pos);
    match sp_ident(src, pos) {
        None => {},
        Some((name, p1)) => {
            let p2 = sp_space0(src, p1);
            lemma_scan_ranges(src, p1);
            if 0 <= p2 < src.len() && src[p2] == '\u{a4}' {
                let p3 = sp_space0(src, p2 + 1);
                lemma_scan_ranges(src, p2 + 1);
                if 0 <= pos && pos < p3 && p3 <= src.len() {
                    lemma_expr_progress(src, p3, st);
                }
            }
        },
    }
}

proof fn lemma_args_range(src: Seq<char>, pos: int, st: StV)
    requires
        0 <= pos <= src.len(),
    ensures
        sp_args(src, pos, st) matches Ok((a, p2, st2)) ==> pos <= p2 <= src.len(),
    decreases rem(src, pos), 11nat,
{
    lemma_expr_progress(src, pos, st);
    match sp_expr(src, pos, st) {
        Err(_) => {},
        Ok((a, p1, st1)) => {
            if 0 <= pos && pos < p1 && p1 <= src.len() {
                lemma_args_range(src, p1, st1);
            }
        },
    }
}

proof fn lemma_funcall_progress(src: Seq<char>, pos: int, st: StV)
    requires
        0 <= pos <= src.len(),
    ensures
        sp_funcall(src, pos, st) matches Ok((e, p2, st2)) ==> pos < p2 <= src.len(),
    decreases rem(src, pos), 8nat,
{
    lemma_scan_ranges(src, pos);
    match sp_ident(src, pos) {
        None => {},
        Some((name, p1)) => {
            lemma_scan_ranges(src, p1);
            let p2 = sp_space0(src, p1);
            if 0 <= pos && pos < p2 && p2 <= src.len() {
                lemma_args_range(src, p2, st);
            }
        },
    }
}

proof fn lemma_scope_progress(src: Seq<char>, pos: int, st: StV)
    requires
        0 <= pos <= src.len(),
    ensures
        sp_scope(src, pos, st) matches Ok((e, p2, st2)) ==> pos < p2 <= src.len(),
    decreases rem(src, pos), 8nat,
{
    if 0 <= pos < src.len() && src[pos] == '{' {
        lemma_scan_ranges(src, pos + 1);
        let p1 = sp_space0(src, pos + 1);
        if 0 <= pos && pos < p1 && p1 <= src.len() {
            lemma_expr_progress(src, p1, st);
            match sp_expr(src, p1, st) {
                Err(_) => {},
                Ok((body, p2, st1)) => {
                    if 0 <= p2 < src.len() && src[p2] == ')' {
                        lemma_scan_ranges(src, p2 + 1);
                    }
                },
            }
        }
    }
}

proof fn lemma_otherwise_progress(src: Seq<char>, pos: int, st: StV)
    requires
        0 <= pos <= src.len(),
    ensures
        sp_otherwise(src, pos, st) matches Ok((e, p2, st2)) ==> pos < p2 <= src.len(),
    decreases rem(src, pos), 8nat,
{
    lemma_phrases_nonempty();
    lemma_cond_progress(src, pos, st.elses, else_phrases());
    match sp_cond(src, pos, st.elses, else_phrases()) {
        Err(_) => {},
        Ok((p1, u)) => {
            let st1 = StV { ifs: st.ifs, elses: u };
            lemma_scan_ranges(src, p1);
            let p2 = sp_space0(src, p1);
            if 0 <= pos && pos < p2 && p2 <= src.len() {
                lemma_expr_progress(src, p2, st1);
            }
        },
    }
}

proof fn lemma_conditional_progress(src: Seq<char>, pos: int, st: StV)
    requires
        0 <= pos <= src.len(),
    ensures
        sp_conditional(src, pos, st) matches Ok((e, p2, st2)) ==> pos < p2 <= src.len(),
    decreases rem(src, pos), 8nat,
{
    lemma_phrases_nonempty();
    lemma_cond_progress(src, pos, st.ifs, if_phrases());
    match sp_cond(src, pos, st.ifs, if_phrases()) {
        Err(_) => {},
        Ok((p1, u)) => {
            let st1 = StV { ifs: u, elses: st.elses };
            lemma_scan_ranges(src, p1);
            let p2 = sp_space0(src, p1);
            if 0 <= pos && pos < p2 && p2 <= src.len() {
                lemma_expr_progress(src, p2, st1);
                match sp_expr(src, p2, st1) {
                    Err(_) => {},
                    Ok((c, p3, st2)) => {
                        if 0 <= pos && pos < p3 && p3 <= src.len() {
                            lemma_expr_progress(src, p3, st2);
                            match sp_expr(src, p3, st2) {
                                Err(_) => {},
                                Ok((su, p4, st3)) => {
                                    if 0 <= pos && pos < p4 && p4 <= src.len() {
                                        lemma_otherwise_progress(src, p4, st3);
                                    }
                                },
                            }
                        }
                    },
                }
            }
        },
    }
}

proof fn lemma_write_io_progress(src: Seq<char>, pos: int, st: StV)
    requires
        0 <= pos <= src.len(),
    ensures
        sp_write_io(src, pos, st) matches Ok((e, p2, st2)) ==> pos < p2 <= src.len(),
    decreases rem(src, pos), 8nat,
{
    if 0 <= pos < src.len() && src[pos] == '@' {
        lemma_scan_ranges(src, pos + 1);
        let p1 = sp_space0(src, pos + 1);
        if p1 + 2 <= src.len() && src[p1] == '<' && src[p1 + 1] == '<' {
            lemma_scan_ranges(src, p1 + 2);
            let p2 = sp_space0(src, p1 + 2);
            if 0 <= pos && pos < p2 && p2 <= src.len() {
                lemma_expr_progress(src, p2, st);
            }
        }
    }
}

proof fn lemma_oper_progress(src: Seq<char>, pos: int, st: StV)
    requires
        0 <= pos <= src.len(),
    ensures
        sp_oper(src, pos, st) matches Ok((or, p2, st2)) ==> pos < p2 <= src.len(),
    decreases rem(src, pos), 8nat,
{
    if 0 <= pos < src.len() && (src[pos] == '=' || src[pos] == '*' || src[pos] == '+' || src[pos]
        == '-') {
        lemma_scan_ranges(src, pos + 1);
        let p1 = sp_space0(src, pos + 1);
        if 0 <= pos && pos < p1 && p1 <= src.len() {
            lemma_expr_progress(src, p1, st);
        }
    }
}

proof fn lemma_primary_progress(src: Seq<char>, pos: int, st: StV)
    requires
        0 <= pos <= src.len(),
    ensures
        sp_primary(src, pos, st) matches Ok((e, p2, st2)) ==> pos < p2 <= src.len(),
    decreases rem(src, pos), 9nat,
{
    lemma_fundef_progress(src, pos, st);
    match sp_fundef(src, pos, st) {
        Ok(_) => {},
        Err((e1, st1)) => {
            lemma_funcall_progress(src, pos, st1);
            match sp_funcall(src, pos, st1) {
                Ok(_) => {},
                Err((e2, st2)) => {
                    lemma_text_scan_progress(src, pos);
                    lemma_write_io_progress(src, pos, st2);
                    match sp_write_io(src, pos, st2) {
                        Ok(_) => {},
                        Err((e3, st3)) => {
                            lemma_scope_progress(src, pos, st3);
                            match sp_scope(src, pos, st3) {
                                Ok(_) => {},
                                Err((e4, st4)) => {
                                    lemma_conditional_progress(src, pos, st4);
                                    lemma_param_progress(src, pos);
                                    lemma_vector_progress(src, pos);
                                },
                            }
                        },
                    }
                },
            }
        },
    }
}

proof fn lemma_expr_progress(src: Seq<char>, pos: int, st: StV)
    requires
        0 <= pos <= src.len(),
    ensures
        sp_expr(src, pos, st) matches Ok((e, p2, st2)) ==> pos < p2 <= src.len(),
    decreases rem(src, pos), 10nat,
{
    lemma_primary_progress(src, pos, st);
    match sp_primary(src, pos, st) {
        Err(_) => {},
        Ok((e1, p1, st1)) => {
            lemma_scan_ranges(src, p1);
            let p2 = sp_space0(src, p1);
            if 0 <= pos && pos < p2 && p2 <= src.len() {
                lemma_oper_progress(src, p2, st1);
            }
        },
    }
}

proof fn lemma_exprs_more_err_hard(src: Seq<char>, pos: int, st: StV)
    requires
        0 <= pos <= src.len(),
    ensures
        sp_exprs_more(src, pos, st) matches Err((e, st2)) ==> is_hard_error(e),
    decreases rem(src, pos), 12nat,
{
    if 0 <= pos < src.len() && is_multispace_char(src[pos]) {
        lemma_scan_ranges(src, pos);
        let p1 = sp_multispace0(src, pos);
        if 0 <= pos && pos < p1 && p1 <= src.len() {
            lemma_expr_progress(src, p1, st);
            match sp_expr(src, p1, st) {
                Err(_) => {},
                Ok((e, p2, st1)) => {
                    if 0 <= pos && pos < p2 && p2 <= src.len() {
                        lemma_exprs_more_err_hard(src, p2, st1);
                    }
                },
            }
        }
    }
}

proof fn lemma_exprs_err_hard(src: Seq<char>, pos: int, st: StV)
    requires
        0 <= pos <= src.len(),
    ensures
        sp_exprs(src, pos, st) matches Err((e, st2)) ==> is_hard_error(e),
    decreases rem(src, pos), 13nat,
{
    lemma_expr_progress(src, pos, st);
    match sp_expr(src, pos, st) {
        Err(_) => {},
        Ok((e, p1, st1)) => {
            if 0 <= pos && pos < p1 && p1 <= src.len() {
                lemma_exprs_more_err_hard(src, p1, st1);
            }
        },
    }
}

/// A whole-program parse can only fail on a reused phrase: a soft mismatch
/// merely ends the expression list, so the one error `parse` ever reports
/// is the exhausted phrase.
pub proof fn lemma_parse_fails_only_on_phrase_reuse(src: Seq<char>, st: StV)
    ensures
        sp_parse(src, 0, st) matches Err((e, st2)) ==> e == ParseError::PhraseExhausted,
{
    lemma_scan_ranges(src, 0);
    lemma_exprs_err_hard(src, sp_multispace0(src, 0), st);
}

} // verus!
