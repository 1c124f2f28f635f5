//! The calculator's grammar: an expression is split into tokens and parsed
//! into a tree by precedence (`+ -` below `* / %` below right-associative
//! `^` below unary `- +`, with parentheses). Numbers stay as the positions of
//! their text in the input; evaluating the tree in floating point is done by
//! the application.

use vstd::prelude::*;

use crate::text::chars_of;

verus! {

/// A token of a calculator expression.
#[derive(Debug, Clone, Copy, PartialEq, Eq, Structural)]
pub enum CalcToken {
    /// A run of digits and dots: the character positions `start..end` of the input.
    Num { start: usize, end: usize },
    /// One of `+ - * / ^ %`.
    Op(char),
    LParen,
    RParen,
}

/// An expression tree; numbers are character ranges of the input.
#[derive(Debug)]
pub enum CalcExpr {
    Num { start: usize, end: usize },
    Neg(Box<CalcExpr>),
    Add(Box<CalcExpr>, Box<CalcExpr>),
    Sub(Box<CalcExpr>, Box<CalcExpr>),
    Mul(Box<CalcExpr>, Box<CalcExpr>),
    Div(Box<CalcExpr>, Box<CalcExpr>),
    Rem(Box<CalcExpr>, Box<CalcExpr>),
    Pow(Box<CalcExpr>, Box<CalcExpr>),
}

// ── Tokens ─────────────────────────────────────────────────────

/// Whether `c` belongs to a number: a digit or a dot.
pub open spec fn is_num_char(c: char) -> bool {
    ('0' <= c && c <= '9') || c == '.'
}

/// Whether `c` is an operator character.
pub open spec fn is_op_char(c: char) -> bool {
    c == '+' || c == '-' || c == '*' || c == '/' || c == '^' || c == '%'
}

/// `t` with `p` in front, if there is a `t`.
pub open spec fn prepend(p: Seq<CalcToken>, t: Option<Seq<CalcToken>>) -> Option<Seq<CalcToken>> {
    match t {
        Some(s) => Some(p + s),
        None => None,
    }
}

/// The tokens of `s` from position `i` on, where a number started at
/// `start` (-1 if none is open); `None` at a character no token starts with.
pub open spec fn tokens_from(s: Seq<char>, i: int, start: int) -> Option<Seq<CalcToken>>
    decreases s.len() - i,
{
    if i < 0 || i >= s.len() {
        if start >= 0 {
            Some(seq![CalcToken::Num { start: start as usize, end: s.len() as usize }])
        } else {
            Some(Seq::empty())
        }
    } else {
        let c = s[i];
        if is_num_char(c) {
            tokens_from(s, i + 1, if start >= 0 { start } else { i })
        } else {
            let num = if start >= 0 {
                seq![CalcToken::Num { start: start as usize, end: i as usize }]
            } else {
                Seq::empty()
            };
            if c == ' ' || c == '\t' {
                prepend(num, tokens_from(s, i + 1, -1))
            } else if is_op_char(c) {
                prepend(num.push(CalcToken::Op(c)), tokens_from(s, i + 1, -1))
            } else if c == '(' {
                prepend(num.push(CalcToken::LParen), tokens_from(s, i + 1, -1))
            } else if c == ')' {
                prepend(num.push(CalcToken::RParen), tokens_from(s, i + 1, -1))
            } else {
                None
            }
        }
    }
}

/// The tokens of an expression; `None` if it holds a character that is
/// neither a digit, a dot, an operator, a parenthesis nor a space or tab.
pub open spec fn tokens_of(s: Seq<char>) -> Option<Seq<CalcToken>> {
    tokens_from(s, 0, -1)
}

proof fn lemma_prepend_assoc(a: Seq<CalcToken>, b: Seq<CalcToken>, t: Option<Seq<CalcToken>>)
    ensures
        prepend(a, prepend(b, t)) == prepend(a + b, t),
{
    match t {
        Some(s) => {
            assert(a + (b + s) =~= (a + b) + s);
        },
        None => {},
    }
}

/// Splits an expression into tokens.
pub fn tokenize(input: &str) -> (r: Option<Vec<CalcToken>>)
    ensures
        match tokens_of(input@) {
            Some(t) => r matches Some(v) && v@ == t,
            None => r is None,
        },
{
    let s = chars_of(input);
    let n = s.len();
    let mut out: Vec<CalcToken> = Vec::new();
    let mut i: usize = 0;
    let mut start: usize = 0;
    let mut open = false;
    proof {
        assert(prepend(Seq::empty(), tokens_of(input@)) == tokens_of(input@)) by {
            match tokens_of(input@) {
                Some(t) => {
                    assert(Seq::<CalcToken>::empty() + t =~= t);
                },
                None => {},
            }
        }
    }
    while i < n
        invariant
            n == s@.len(),
            s@ == input@,
            i <= n,
            open ==> start < i,
            tokens_of(input@) == prepend(out@, tokens_from(input@, i as int, if open { start as int } else { -1 })),
        decreases n - i,
    {
        let c = s[i];
        if ('0' <= c && c <= '9') || c == '.' {
            if !open {
                open = true;
                start = i;
            }
            i = i + 1;
        } else {
            let ghost before = out@;
            let ghost num: Seq<CalcToken> = if open {
                seq![CalcToken::Num { start: start, end: i }]
            } else {
                Seq::empty()
            };
            if open {
                out.push(CalcToken::Num { start, end: i });
            }
            assert(out@ == before + num);
            if c == ' ' || c == '\t' {
                proof {
                    lemma_prepend_assoc(before, num, tokens_from(input@, i + 1, -1));
                }
            } else if c == '+' || c == '-' || c == '*' || c == '/' || c == '^' || c == '%' {
                out.push(CalcToken::Op(c));
                proof {
                    lemma_prepend_assoc(before, num.push(CalcToken::Op(c)), tokens_from(input@, i + 1, -1));
                    assert(out@ =~= before + num.push(CalcToken::Op(c)));
                }
            } else if c == '(' {
                out.push(CalcToken::LParen);
                proof {
                    lemma_prepend_assoc(before, num.push(CalcToken::LParen), tokens_from(input@, i + 1, -1));
                    assert(out@ =~= before + num.push(CalcToken::LParen));
                }
            } else if c == ')' {
                out.push(CalcToken::RParen);
                proof {
                    lemma_prepend_assoc(before, num.push(CalcToken::RParen), tokens_from(input@, i + 1, -1));
                    assert(out@ =~= before + num.push(CalcToken::RParen));
                }
            } else {
                return None;
            }
            open = false;
            i = i + 1;
        }
    }
    let ghost before = out@;
    if open {
        out.push(CalcToken::Num { start, end: n });
    }
    proof {
        let num: Seq<CalcToken> = if open {
            seq![CalcToken::Num { start: start, end: n }]
        } else {
            Seq::empty()
        };
        assert(out@ =~= before + num);
        assert(before + num =~= (before + num) + Seq::<CalcToken>::empty());
    }
    Some(out)
}

/// Whether a token list's numbers are non-empty runs of digits and dots of `s`.
pub open spec fn numbers_are_runs(s: Seq<char>, t: Seq<CalcToken>) -> bool {
    forall|k: int|
        0 <= k < t.len() ==> (#[trigger] t[k] matches CalcToken::Num { start, end } ==> {
            &&& start < end <= s.len()
            &&& forall|c: int| start <= c < end ==> is_num_char(s[c])
        })
}

proof fn lemma_prepend_runs(s: Seq<char>, p: Seq<CalcToken>, t: Option<Seq<CalcToken>>)
    requires
        numbers_are_runs(s, p),
        t matches Some(x) ==> numbers_are_runs(s, x),
    ensures
        prepend(p, t) matches Some(x) ==> numbers_are_runs(s, x),
{
    match t {
        Some(x) => {
            assert forall|k: int| 0 <= k < (p + x).len() implies (#[trigger] (p + x)[k] matches CalcToken::Num {
                start,
                end,
            } ==> {
                &&& start < end <= s.len()
                &&& forall|c: int| start <= c < end ==> is_num_char(s[c])
            }) by {
                if k >= p.len() {
                    assert((p + x)[k] == x[k - p.len()]);
                } else {
                    assert((p + x)[k] == p[k]);
                }
            }
        },
        None => {},
    }
}

/// The numbers of the tokens from position `i` on are runs of digits and
/// dots, given that the open number, if any, is one so far.
pub proof fn lemma_tokens_from_runs(s: Seq<char>, i: int, start: int)
    requires
        s.len() <= usize::MAX,
        0 <= i <= s.len(),
        start == -1 || (0 <= start < i && forall|c: int| start <= c < i ==> is_num_char(s[c])),
    ensures
        tokens_from(s, i, start) matches Some(t) ==> numbers_are_runs(s, t),
    decreases s.len() - i,
{
    let e: Seq<CalcToken> = Seq::empty();
    if i >= s.len() {
        if start >= 0 {
            let t = seq![CalcToken::Num { start: start as usize, end: s.len() as usize }];
            assert(numbers_are_runs(s, t)) by {
                assert forall|k: int| 0 <= k < t.len() implies (#[trigger] t[k] matches CalcToken::Num {
                    start,
                    end,
                } ==> {
                    &&& start < end <= s.len()
                    &&& forall|c: int| start <= c < end ==> is_num_char(s[c])
                }) by {
                    assert(t[k] == CalcToken::Num { start: start as usize, end: s.len() as usize });
                }
            }
        } else {
            assert(numbers_are_runs(s, e));
        }
    } else {
        let c = s[i];
        if is_num_char(c) {
            lemma_tokens_from_runs(s, i + 1, if start >= 0 { start } else { i });
        } else {
            let num = if start >= 0 {
                seq![CalcToken::Num { start: start as usize, end: i as usize }]
            } else {
                e
            };
            assert(numbers_are_runs(s, num)) by {
                assert forall|k: int| 0 <= k < num.len() implies (#[trigger] num[k] matches CalcToken::Num {
                    start,
                    end,
                } ==> {
                    &&& start < end <= s.len()
                    &&& forall|c: int| start <= c < end ==> is_num_char(s[c])
                }) by {
                    if start >= 0 {
                        assert(num[k] == CalcToken::Num { start: start as usize, end: i as usize });
                    }
                }
            }
            lemma_tokens_from_runs(s, i + 1, -1);
            let rest = tokens_from(s, i + 1, -1);
            if c == ' ' || c == '\t' {
                lemma_prepend_runs(s, num, rest);
            } else {
                let tok = if is_op_char(c) {
                    CalcToken::Op(c)
                } else if c == '(' {
                    CalcToken::LParen
                } else {
                    CalcToken::RParen
                };
                assert(numbers_are_runs(s, num.push(tok))) by {
                    assert forall|k: int| 0 <= k < num.push(tok).len() implies (#[trigger] num.push(tok)[k] matches CalcToken::Num {
                        start,
                        end,
                    } ==> {
                        &&& start < end <= s.len()
                        &&& forall|c: int| start <= c < end ==> is_num_char(s[c])
                    }) by {
                        if k < num.len() {
                            assert(num.push(tok)[k] == num[k]);
                        }
                    }
                }
                lemma_prepend_runs(s, num.push(tok), rest);
            }
        }
    }
}

// ── Grammar ────────────────────────────────────────────────────

/// `left` and `right` joined by the operator `op` (`+ - * / %`).
pub open spec fn binary(op: char, left: CalcExpr, right: CalcExpr) -> CalcExpr {
    if op == '+' {
        CalcExpr::Add(Box::new(left), Box::new(right))
    } else if op == '-' {
        CalcExpr::Sub(Box::new(left), Box::new(right))
    } else if op == '*' {
        CalcExpr::Mul(Box::new(left), Box::new(right))
    } else if op == '/' {
        CalcExpr::Div(Box::new(left), Box::new(right))
    } else {
        CalcExpr::Rem(Box::new(left), Box::new(right))
    }
}

/// A sum: products joined by `+` and `-`, from the left. Each rule gives the
/// tree and the position after it, or `None`.
pub open spec fn addition_spec(t: Seq<CalcToken>, pos: int) -> Option<(CalcExpr, int)>
    decreases t.len() - pos, 6int,
{
    if pos < 0 || pos > t.len() {
        None
    } else {
        match multiplication_spec(t, pos) {
            None => None,
            Some((l, p)) => if p < pos || p > t.len() {
                None
            } else {
                add_rest_spec(t, p, l)
            },
        }
    }
}

/// The `+ product` and `- product` parts after `left`.
pub open spec fn add_rest_spec(t: Seq<CalcToken>, pos: int, left: CalcExpr) -> Option<(CalcExpr, int)>
    decreases t.len() - pos, 5int,
{
    if pos < 0 || pos > t.len() {
        None
    } else if pos < t.len() && (t[pos] == CalcToken::Op('+') || t[pos] == CalcToken::Op('-')) {
        match multiplication_spec(t, pos + 1) {
            None => None,
            Some((r, p)) => if p <= pos || p > t.len() {
                None
            } else {
                add_rest_spec(t, p, binary(t[pos]->0, left, r))
            },
        }
    } else {
        Some((left, pos))
    }
}

/// A product: powers joined by `*`, `/` and `%`, from the left.
pub open spec fn multiplication_spec(t: Seq<CalcToken>, pos: int) -> Option<(CalcExpr, int)>
    decreases t.len() - pos, 4int,
{
    if pos < 0 || pos > t.len() {
        None
    } else {
        match power_spec(t, pos) {
            None => None,
            Some((l, p)) => if p < pos || p > t.len() {
                None
            } else {
                mul_rest_spec(t, p, l)
            },
        }
    }
}

/// The `* power`, `/ power` and `% power` parts after `left`.
pub open spec fn mul_rest_spec(t: Seq<CalcToken>, pos: int, left: CalcExpr) -> Option<(CalcExpr, int)>
    decreases t.len() - pos, 3int,
{
    if pos < 0 || pos > t.len() {
        None
    } else if pos < t.len() && (t[pos] == CalcToken::Op('*') || t[pos] == CalcToken::Op('/')
        || t[pos] == CalcToken::Op('%')) {
        match power_spec(t, pos + 1) {
            None => None,
            Some((r, p)) => if p <= pos || p > t.len() {
                None
            } else {
                mul_rest_spec(t, p, binary(t[pos]->0, left, r))
            },
        }
    } else {
        Some((left, pos))
    }
}

/// A power: a unary term, then `^` and a power (right-associative).
pub open spec fn power_spec(t: Seq<CalcToken>, pos: int) -> Option<(CalcExpr, int)>
    decreases t.len() - pos, 2int,
{
    if pos < 0 || pos > t.len() {
        None
    } else {
        match unary_spec(t, pos) {
            None => None,
            Some((b, p)) => if p < pos || p > t.len() {
                None
            } else if p < t.len() && t[p] == CalcToken::Op('^') {
                match power_spec(t, p + 1) {
                    None => None,
                    Some((e, q)) => Some((CalcExpr::Pow(Box::new(b), Box::new(e)), q)),
                }
            } else {
                Some((b, p))
            },
        }
    }
}

/// A unary term: `-` and an atom (negated), `+` and an atom, or an atom.
pub open spec fn unary_spec(t: Seq<CalcToken>, pos: int) -> Option<(CalcExpr, int)>
    decreases t.len() - pos, 1int,
{
    if pos < 0 || pos > t.len() {
        None
    } else if pos < t.len() && t[pos] == CalcToken::Op('-') {
        match atom_spec(t, pos + 1) {
            None => None,
            Some((a, p)) => Some((CalcExpr::Neg(Box::new(a)), p)),
        }
    } else if pos < t.len() && t[pos] == CalcToken::Op('+') {
        atom_spec(t, pos + 1)
    } else {
        atom_spec(t, pos)
    }
}

/// An atom: a number, or a sum in parentheses.
pub open spec fn atom_spec(t: Seq<CalcToken>, pos: int) -> Option<(CalcExpr, int)>
    decreases t.len() - pos, 0int,
{
    if pos < 0 || pos >= t.len() {
        None
    } else {
        match t[pos] {
            CalcToken::Num { start, end } => Some((CalcExpr::Num { start, end }, pos + 1)),
            CalcToken::LParen => match addition_spec(t, pos + 1) {
                Some((v, p)) => if 0 <= p < t.len() && t[p] == CalcToken::RParen {
                    Some((v, p + 1))
                } else {
                    None
                },
                None => None,
            },
            _ => None,
        }
    }
}

/// Whether an exec result stands for a spec result: the same tree, at the
/// same position, which lies in `lo..=len`.
pub open spec fn parsed_as(
    r: Option<(CalcExpr, usize)>,
    s: Option<(CalcExpr, int)>,
    lo: int,
    len: int,
) -> bool {
    match r {
        Some((e, p)) => s == Some((e, p as int)) && lo <= p <= len,
        None => s is None,
    }
}

/// Parses a sum at `pos`.
pub fn parse_addition(t: &[CalcToken], pos: usize) -> (r: Option<(CalcExpr, usize)>)
    requires
        pos <= t@.len(),
    ensures
        parsed_as(r, addition_spec(t@, pos as int), pos + 1, t@.len() as int),
    decreases t@.len() - pos, 6int,
{
    match parse_multiplication(t, pos) {
        None => None,
        Some((l, p)) => add_rest(t, p, l),
    }
}

/// Parses the `+`/`-` parts after `left` at `pos`.
fn add_rest(t: &[CalcToken], pos: usize, left: CalcExpr) -> (r: Option<(CalcExpr, usize)>)
    requires
        pos <= t@.len(),
    ensures
        parsed_as(r, add_rest_spec(t@, pos as int, left), pos as int, t@.len() as int),
    decreases t@.len() - pos, 5int,
{
    if pos < t.len() && (t[pos] == CalcToken::Op('+') || t[pos] == CalcToken::Op('-')) {
        let op = t[pos];
        match parse_multiplication(t, pos + 1) {
            None => None,
            Some((r, p)) => {
                let joined = if op == CalcToken::Op('+') {
                    CalcExpr::Add(Box::new(left), Box::new(r))
                } else {
                    CalcExpr::Sub(Box::new(left), Box::new(r))
                };
                add_rest(t, p, joined)
            },
        }
    } else {
        Some((left, pos))
    }
}

/// Parses a product at `pos`.
pub fn parse_multiplication(t: &[CalcToken], pos: usize) -> (r: Option<(CalcExpr, usize)>)
    requires
        pos <= t@.len(),
    ensures
        parsed_as(r, multiplication_spec(t@, pos as int), pos + 1, t@.len() as int),
    decreases t@.len() - pos, 4int,
{
    match parse_power(t, pos) {
        None => None,
        Some((l, p)) => mul_rest(t, p, l),
    }
}

/// Parses the `*`/`/`/`%` parts after `left` at `pos`.
fn mul_rest(t: &[CalcToken], pos: usize, left: CalcExpr) -> (r: Option<(CalcExpr, usize)>)
    requires
        pos <= t@.len(),
    ensures
        parsed_as(r, mul_rest_spec(t@, pos as int, left), pos as int, t@.len() as int),
    decreases t@.len() - pos, 3int,
{
    if pos < t.len() && (t[pos] == CalcToken::Op('*') || t[pos] == CalcToken::Op('/') || t[pos]
        == CalcToken::Op('%')) {
        let op = t[pos];
        match parse_power(t, pos + 1) {
            None => None,
            Some((r, p)) => {
                let joined = if op == CalcToken::Op('*') {
                    CalcExpr::Mul(Box::new(left), Box::new(r))
                } else if op == CalcToken::Op('/') {
                    CalcExpr::Div(Box::new(left), Box::new(r))
                } else {
                    CalcExpr::Rem(Box::new(left), Box::new(r))
                };
                mul_rest(t, p, joined)
            },
        }
    } else {
        Some((left, pos))
    }
}

/// Parses a power at `pos`.
pub fn parse_power(t: &[CalcToken], pos: usize) -> (r: Option<(CalcExpr, usize)>)
    requires
        pos <= t@.len(),
    ensures
        parsed_as(r, power_spec(t@, pos as int), pos + 1, t@.len() as int),
    decreases t@.len() - pos, 2int,
{
    match parse_unary(t, pos) {
        None => None,
        Some((b, p)) => {
            if p < t.len() && t[p] == CalcToken::Op('^') {
                match parse_power(t, p + 1) {
                    None => None,
                    Some((e, q)) => Some((CalcExpr::Pow(Box::new(b), Box::new(e)), q)),
                }
            } else {
                Some((b, p))
            }
        },
    }
}

/// Parses a unary term at `pos`.
pub fn parse_unary(t: &[CalcToken], pos: usize) -> (r: Option<(CalcExpr, usize)>)
    requires
        pos <= t@.len(),
    ensures
        parsed_as(r, unary_spec(t@, pos as int), pos + 1, t@.len() as int),
    decreases t@.len() - pos, 1int,
{
    if pos < t.len() && t[pos] == CalcToken::Op('-') {
        match parse_atom(t, pos + 1) {
            None => None,
            Some((a, p)) => Some((CalcExpr::Neg(Box::new(a)), p)),
        }
    } else if pos < t.len() && t[pos] == CalcToken::Op('+') {
        parse_atom(t, pos + 1)
    } else {
        parse_atom(t, pos)
    }
}

/// Parses a number or a parenthesized sum at `pos`.
pub fn parse_atom(t: &[CalcToken], pos: usize) -> (r: Option<(CalcExpr, usize)>)
    requires
        pos <= t@.len(),
    ensures
        parsed_as(r, atom_spec(t@, pos as int), pos + 1, t@.len() as int),
    decreases t@.len() - pos, 0int,
{
    if pos >= t.len() {
        return None;
    }
    match t[pos] {
        CalcToken::Num { start, end } => Some((CalcExpr::Num { start, end }, pos + 1)),
        CalcToken::LParen => match parse_addition(t, pos + 1) {
            Some((v, p)) => {
                if p < t.len() && t[p] == CalcToken::RParen {
                    Some((v, p + 1))
                } else {
                    None
                }
            },
            None => None,
        },
        _ => None,
    }
}

/// The tree of a whole token list: a sum that uses every token.
pub open spec fn expression_of(t: Seq<CalcToken>) -> Option<CalcExpr> {
    match addition_spec(t, 0) {
        Some((e, p)) => if p == t.len() {
            Some(e)
        } else {
            None
        },
        None => None,
    }
}

/// Parses a token list into one expression, using every token.
pub fn parse_calc(t: &[CalcToken]) -> (r: Option<CalcExpr>)
    ensures
        r == expression_of(t@),
{
    match parse_addition(t, 0) {
        Some((e, p)) => if p == t.len() {
            Some(e)
        } else {
            None
        },
        None => None,
    }
}

} // verus!
