//! The grammar of Rainbow, as a parser on bytes.
//!
//! ```text
//! term       := apply | bool | number | string | variable | list | record | block
//! apply      := argument+
//! argument   := keyword term
//! keyword    := ident ':'                       (nothing between them)
//! variable   := ident ('.' ident)*
//! list       := '[' term* ']'
//! record     := '[' entry+ ']'
//! entry      := ident '=' term
//! block      := '{' block_args? term '}'
//! block_args := ident+ '=>'
//! ident      := [A-Za-z_][A-Za-z0-9_]*
//! number     := digit (digit | '_')* ('.' digit (digit | '_')*)? ([eE] [+-]? digit+)?
//! string     := '"' (any byte but '"')* '"'
//! bool       := ('true' | 'false'), not followed by a character of an ident
//! ```
//!
//! The alternatives of a rule are tried in the order given, and the first that matches
//! stands. Blanks, tabs and line ends may stand between the parts of a rule, except
//! inside a keyword, an ident, a number, a string and a bool. What a rule matched is a
//! pair: the rule, the span of bytes, and the pairs of the rules inside it. Blanks that
//! were passed over while looking for a further part that then did not come are not part
//! of the span, except the blanks after the first part of a rule.
use vstd::prelude::*;
use vstd::slice::*;
use vstd::string::*;

verus! {

/// The rules of the grammar.
#[allow(non_camel_case_types)]
#[derive(Clone, Copy, Debug, PartialEq, Eq, Structural)]
pub enum Rule {
    term,
    apply,
    argument,
    keyword,
    variable,
    list,
    record,
    entry,
    block,
    block_args,
    ident,
    number,
    string,
    bool,
}

/// What a rule matched: the rule, the span of bytes from `start` up to `end`, and what
/// the rules inside it matched.
#[derive(Debug, PartialEq, Eq)]
pub struct Pair {
    pub rule: Rule,
    pub start: usize,
    pub end: usize,
    pub inner: Vec<Pair>,
}

/// The model of a [`Pair`].
pub struct PairView {
    pub rule: Rule,
    pub start: int,
    pub end: int,
    pub inner: Seq<PairView>,
}

/// The model of a pair.
pub open spec fn pair_view(p: Pair) -> PairView
    decreases p,
{
    PairView {
        rule: p.rule,
        start: p.start as int,
        end: p.end as int,
        inner: Seq::new(
            p.inner@.len(),
            |i: int|
                if 0 <= i < p.inner@.len() {
                    pair_view(p.inner@[i])
                } else {
                    arbitrary()
                },
        ),
    }
}

impl View for Pair {
    type V = PairView;

    open spec fn view(&self) -> PairView {
        pair_view(*self)
    }
}

/// The model of a list of pairs.
pub open spec fn pairs_view(pairs: Seq<Pair>) -> Seq<PairView> {
    Seq::new(pairs.len(), |i: int| pairs[i]@)
}

/// A pair's model lists the models of the pairs inside it.
pub proof fn lemma_pair_view(p: Pair)
    ensures
        p@ == (PairView {
            rule: p.rule,
            start: p.start as int,
            end: p.end as int,
            inner: pairs_view(p.inner@),
        }),
{
    assert(p@.inner =~= pairs_view(p.inner@));
}

/// A pair without pairs inside it.
pub open spec fn leaf(rule: Rule, start: int, end: int) -> PairView {
    PairView { rule, start, end, inner: Seq::empty() }
}

pub open spec fn is_space(b: u8) -> bool {
    b == 32 || b == 9 || b == 10 || b == 13
}

pub open spec fn is_digit(b: u8) -> bool {
    48 <= b <= 57
}

pub open spec fn is_ident_start(b: u8) -> bool {
    (65 <= b <= 90) || (97 <= b <= 122) || b == 95
}

pub open spec fn is_ident_char(b: u8) -> bool {
    is_ident_start(b) || is_digit(b)
}

/// The first position at or after `pos` that holds no blank.
pub open spec fn skip_ws(s: Seq<u8>, pos: int) -> int
    decreases s.len() - pos,
{
    if 0 <= pos < s.len() && is_space(s[pos]) {
        skip_ws(s, pos + 1)
    } else {
        pos
    }
}

/// The first position at or after `pos` that holds no character of an ident.
pub open spec fn ident_end(s: Seq<u8>, pos: int) -> int
    decreases s.len() - pos,
{
    if 0 <= pos < s.len() && is_ident_char(s[pos]) {
        ident_end(s, pos + 1)
    } else {
        pos
    }
}

/// The first position at or after `pos` that holds neither a digit nor `_`.
pub open spec fn digits_end(s: Seq<u8>, pos: int) -> int
    decreases s.len() - pos,
{
    if 0 <= pos < s.len() && (is_digit(s[pos]) || s[pos] == 95) {
        digits_end(s, pos + 1)
    } else {
        pos
    }
}

/// The first position at or after `pos` that holds no digit.
pub open spec fn plain_digits_end(s: Seq<u8>, pos: int) -> int
    decreases s.len() - pos,
{
    if 0 <= pos < s.len() && is_digit(s[pos]) {
        plain_digits_end(s, pos + 1)
    } else {
        pos
    }
}

/// The first position at or after `pos` that holds `"`, or the length where none does.
pub open spec fn quote_at(s: Seq<u8>, pos: int) -> int
    decreases s.len() - pos,
{
    if 0 <= pos < s.len() && s[pos] != 34 {
        quote_at(s, pos + 1)
    } else {
        pos
    }
}

/// Whether `true` stands at `pos`.
pub open spec fn true_at(s: Seq<u8>, pos: int) -> bool {
    0 <= pos && pos + 4 <= s.len() && s[pos] == 116 && s[pos + 1] == 114 && s[pos + 2] == 117
        && s[pos + 3] == 101
}

/// Whether `false` stands at `pos`.
pub open spec fn false_at(s: Seq<u8>, pos: int) -> bool {
    0 <= pos && pos + 5 <= s.len() && s[pos] == 102 && s[pos + 1] == 97 && s[pos + 2] == 108
        && s[pos + 3] == 115 && s[pos + 4] == 101
}

pub open spec fn ident_spec(s: Seq<u8>, pos: int) -> Option<(PairView, int)> {
    if 0 <= pos < s.len() && is_ident_start(s[pos]) {
        let e = ident_end(s, pos + 1);
        Some((leaf(Rule::ident, pos, e), e))
    } else {
        None
    }
}

pub open spec fn keyword_spec(s: Seq<u8>, pos: int) -> Option<(PairView, int)> {
    match ident_spec(s, pos) {
        Some((_, e)) => if 0 <= e < s.len() && s[e] == 58 {
            Some((leaf(Rule::keyword, pos, e + 1), e + 1))
        } else {
            None
        },
        None => None,
    }
}

/// Where the exponent that starts at `pos` ends, or `pos` where none starts there.
pub open spec fn exponent_end(s: Seq<u8>, pos: int) -> int {
    if 0 <= pos < s.len() && (s[pos] == 101 || s[pos] == 69) {
        let d = if pos + 1 < s.len() && (s[pos + 1] == 43 || s[pos + 1] == 45) {
            pos + 2
        } else {
            pos + 1
        };
        if d < s.len() && is_digit(s[d]) {
            plain_digits_end(s, d + 1)
        } else {
            pos
        }
    } else {
        pos
    }
}

pub open spec fn number_spec(s: Seq<u8>, pos: int) -> Option<(PairView, int)> {
    if 0 <= pos < s.len() && is_digit(s[pos]) {
        let a = digits_end(s, pos + 1);
        let b = if 0 <= a && a + 1 < s.len() && s[a] == 46 && is_digit(s[a + 1]) {
            digits_end(s, a + 2)
        } else {
            a
        };
        let c = exponent_end(s, b);
        Some((leaf(Rule::number, pos, c), c))
    } else {
        None
    }
}

pub open spec fn string_spec(s: Seq<u8>, pos: int) -> Option<(PairView, int)> {
    if 0 <= pos < s.len() && s[pos] == 34 {
        let q = quote_at(s, pos + 1);
        if 0 <= q < s.len() {
            Some((leaf(Rule::string, pos, q + 1), q + 1))
        } else {
            None
        }
    } else {
        None
    }
}

pub open spec fn bool_spec(s: Seq<u8>, pos: int) -> Option<(PairView, int)> {
    if true_at(s, pos) && !(pos + 4 < s.len() && is_ident_char(s[pos + 4])) {
        Some((leaf(Rule::bool, pos, pos + 4), pos + 4))
    } else if false_at(s, pos) && !(pos + 5 < s.len() && is_ident_char(s[pos + 5])) {
        Some((leaf(Rule::bool, pos, pos + 5), pos + 5))
    } else {
        None
    }
}

/// The further segments of a variable after the part that ends at `end`.
pub open spec fn var_more_spec(s: Seq<u8>, end: int, acc: Seq<PairView>) -> (Seq<PairView>, int)
    decreases s.len() - end,
{
    let p = skip_ws(s, end);
    if 0 <= p < s.len() && s[p] == 46 {
        match ident_spec(s, skip_ws(s, p + 1)) {
            Some((id, e)) => if end < e <= s.len() {
                var_more_spec(s, e, acc.push(id))
            } else {
                (acc, end)
            },
            None => (acc, end),
        }
    } else {
        (acc, end)
    }
}

pub open spec fn variable_spec(s: Seq<u8>, pos: int) -> Option<(PairView, int)> {
    match ident_spec(s, pos) {
        Some((id, e)) => {
            let (ids, end) = var_more_spec(s, skip_ws(s, e), seq![id]);
            Some((PairView { rule: Rule::variable, start: pos, end, inner: ids }, end))
        },
        None => None,
    }
}

/// The further idents of a block's arguments after the part that ends at `end`.
pub open spec fn idents_more_spec(s: Seq<u8>, end: int, acc: Seq<PairView>) -> (
    Seq<PairView>,
    int,
)
    decreases s.len() - end,
{
    match ident_spec(s, skip_ws(s, end)) {
        Some((id, e)) => if end < e <= s.len() {
            idents_more_spec(s, e, acc.push(id))
        } else {
            (acc, end)
        },
        None => (acc, end),
    }
}

pub open spec fn block_args_spec(s: Seq<u8>, pos: int) -> Option<(PairView, int)> {
    match ident_spec(s, pos) {
        Some((id, e)) => {
            let (ids, end) = idents_more_spec(s, skip_ws(s, e), seq![id]);
            let q = skip_ws(s, end);
            if 0 <= q && q + 1 < s.len() && s[q] == 61 && s[q + 1] == 62 {
                Some((PairView { rule: Rule::block_args, start: pos, end: q + 2, inner: ids }, q + 2))
            } else {
                None
            }
        },
        None => None,
    }
}

pub open spec fn term_spec(s: Seq<u8>, pos: int) -> Option<(PairView, int)>
    decreases s.len() - pos, 9int,
{
    if !(0 <= pos < s.len()) {
        None
    } else if apply_spec(s, pos) is Some {
        apply_spec(s, pos)
    } else if bool_spec(s, pos) is Some {
        bool_spec(s, pos)
    } else if number_spec(s, pos) is Some {
        number_spec(s, pos)
    } else if string_spec(s, pos) is Some {
        string_spec(s, pos)
    } else if variable_spec(s, pos) is Some {
        variable_spec(s, pos)
    } else if list_spec(s, pos) is Some {
        list_spec(s, pos)
    } else if record_spec(s, pos) is Some {
        record_spec(s, pos)
    } else {
        block_spec(s, pos)
    }
}

pub open spec fn apply_spec(s: Seq<u8>, pos: int) -> Option<(PairView, int)>
    decreases s.len() - pos, 8int,
{
    if !(0 <= pos < s.len()) {
        None
    } else {
        match argument_spec(s, pos) {
            Some((a, e)) => if pos < e <= skip_ws(s, e) <= s.len() {
                let (args, end) = args_more_spec(s, skip_ws(s, e), seq![a]);
                Some((PairView { rule: Rule::apply, start: pos, end, inner: args }, end))
            } else {
                None
            },
            None => None,
        }
    }
}

/// The further arguments of a call after the part that ends at `end`.
pub open spec fn args_more_spec(s: Seq<u8>, end: int, acc: Seq<PairView>) -> (Seq<PairView>, int)
    decreases s.len() - end, 7int,
{
    let p = skip_ws(s, end);
    if !(0 <= end <= p < s.len()) {
        (acc, end)
    } else {
        match argument_spec(s, p) {
            Some((a, e)) => if p < e <= s.len() {
                args_more_spec(s, e, acc.push(a))
            } else {
                (acc, end)
            },
            None => (acc, end),
        }
    }
}

pub open spec fn argument_spec(s: Seq<u8>, pos: int) -> Option<(PairView, int)>
    decreases s.len() - pos, 6int,
{
    match keyword_spec(s, pos) {
        Some((k, e1)) => {
            let p = skip_ws(s, e1);
            if 0 <= pos < p < s.len() {
                match term_spec(s, p) {
                    Some((t, e2)) => Some(
                        (PairView { rule: Rule::argument, start: pos, end: e2, inner: seq![k, t] }, e2),
                    ),
                    None => None,
                }
            } else {
                None
            }
        },
        None => None,
    }
}

/// The terms of a list from `pos` on, and where the last of them ends and blanks after
/// it.
pub open spec fn items_spec(s: Seq<u8>, pos: int, acc: Seq<PairView>) -> (Seq<PairView>, int)
    decreases s.len() - pos, 10int,
{
    if !(0 <= pos < s.len()) {
        (acc, pos)
    } else {
        match term_spec(s, pos) {
            Some((t, e)) => {
                let q = skip_ws(s, e);
                if pos < e <= q <= s.len() {
                    items_spec(s, q, acc.push(t))
                } else {
                    (acc, pos)
                }
            },
            None => (acc, pos),
        }
    }
}

pub open spec fn list_spec(s: Seq<u8>, pos: int) -> Option<(PairView, int)>
    decreases s.len() - pos, 7int,
{
    if 0 <= pos < s.len() && s[pos] == 91 {
        let p = skip_ws(s, pos + 1);
        if pos < p <= s.len() {
            let (items, q) = items_spec(s, p, Seq::empty());
            if 0 <= q < s.len() && s[q] == 93 {
                Some((PairView { rule: Rule::list, start: pos, end: q + 1, inner: items }, q + 1))
            } else {
                None
            }
        } else {
            None
        }
    } else {
        None
    }
}

pub open spec fn entry_spec(s: Seq<u8>, pos: int) -> Option<(PairView, int)>
    decreases s.len() - pos, 6int,
{
    match ident_spec(s, pos) {
        Some((id, e1)) => {
            let q = skip_ws(s, e1);
            if 0 <= q < s.len() && s[q] == 61 {
                let r = skip_ws(s, q + 1);
                if 0 <= pos < r < s.len() {
                    match term_spec(s, r) {
                        Some((t, e2)) => Some(
                            (
                                PairView {
                                    rule: Rule::entry,
                                    start: pos,
                                    end: e2,
                                    inner: seq![id, t],
                                },
                                e2,
                            ),
                        ),
                        None => None,
                    }
                } else {
                    None
                }
            } else {
                None
            }
        },
        None => None,
    }
}

/// The entries of a record from `pos` on, and where the last of them ends and blanks
/// after it.
pub open spec fn entries_spec(s: Seq<u8>, pos: int, acc: Seq<PairView>) -> (Seq<PairView>, int)
    decreases s.len() - pos, 10int,
{
    if !(0 <= pos < s.len()) {
        (acc, pos)
    } else {
        match entry_spec(s, pos) {
            Some((t, e)) => {
                let q = skip_ws(s, e);
                if pos < e <= q <= s.len() {
                    entries_spec(s, q, acc.push(t))
                } else {
                    (acc, pos)
                }
            },
            None => (acc, pos),
        }
    }
}

pub open spec fn record_spec(s: Seq<u8>, pos: int) -> Option<(PairView, int)>
    decreases s.len() - pos, 7int,
{
    if 0 <= pos < s.len() && s[pos] == 91 {
        let p = skip_ws(s, pos + 1);
        if pos < p <= s.len() {
            let (entries, q) = entries_spec(s, p, Seq::empty());
            if entries.len() > 0 && 0 <= q < s.len() && s[q] == 93 {
                Some(
                    (PairView { rule: Rule::record, start: pos, end: q + 1, inner: entries }, q + 1),
                )
            } else {
                None
            }
        } else {
            None
        }
    } else {
        None
    }
}

pub open spec fn block_spec(s: Seq<u8>, pos: int) -> Option<(PairView, int)>
    decreases s.len() - pos, 7int,
{
    if 0 <= pos < s.len() && s[pos] == 123 {
        let p = skip_ws(s, pos + 1);
        let args = block_args_spec(s, p);
        let body_at = match args {
            Some((_, e)) => skip_ws(s, e),
            None => p,
        };
        if pos < body_at < s.len() {
            match term_spec(s, body_at) {
                Some((t, e2)) => {
                    let q = skip_ws(s, e2);
                    if 0 <= q < s.len() && s[q] == 125 {
                        let inner = match args {
                            Some((ba, _)) => seq![ba, t],
                            None => seq![t],
                        };
                        Some((PairView { rule: Rule::block, start: pos, end: q + 1, inner }, q + 1))
                    } else {
                        None
                    }
                },
                None => None,
            }
        } else {
            None
        }
    } else {
        None
    }
}

/// What `rule` matches at the start of the input.
pub open spec fn rule_spec(rule: Rule, s: Seq<u8>) -> Option<(PairView, int)> {
    match rule {
        Rule::term => term_spec(s, 0),
        Rule::apply => apply_spec(s, 0),
        Rule::argument => argument_spec(s, 0),
        Rule::keyword => keyword_spec(s, 0),
        Rule::variable => variable_spec(s, 0),
        Rule::list => list_spec(s, 0),
        Rule::record => record_spec(s, 0),
        Rule::entry => entry_spec(s, 0),
        Rule::block => block_spec(s, 0),
        Rule::block_args => block_args_spec(s, 0),
        Rule::ident => ident_spec(s, 0),
        Rule::number => number_spec(s, 0),
        Rule::string => string_spec(s, 0),
        Rule::bool => bool_spec(s, 0),
    }
}

fn mk_leaf(rule: Rule, start: usize, end: usize) -> (p: Pair)
    ensures
        p@ == leaf(rule, start as int, end as int),
{
    let p = Pair { rule, start, end, inner: Vec::new() };
    proof {
        lemma_pair_view(p);
        assert(pairs_view(p.inner@) =~= Seq::empty());
    }
    p
}

fn mk_pair(rule: Rule, start: usize, end: usize, inner: Vec<Pair>) -> (p: Pair)
    ensures
        p@ == (PairView {
            rule,
            start: start as int,
            end: end as int,
            inner: pairs_view(inner@),
        }),
{
    let p = Pair { rule, start, end, inner };
    proof {
        lemma_pair_view(p);
    }
    p
}

fn one(p: Pair) -> (v: Vec<Pair>)
    ensures
        pairs_view(v@) == seq![p@],
{
    let mut v: Vec<Pair> = Vec::new();
    v.push(p);
    assert(pairs_view(v@) =~= seq![p@]);
    v
}

fn two(p: Pair, q: Pair) -> (v: Vec<Pair>)
    ensures
        pairs_view(v@) == seq![p@, q@],
{
    let mut v: Vec<Pair> = Vec::new();
    v.push(p);
    v.push(q);
    assert(pairs_view(v@) =~= seq![p@, q@]);
    v
}

fn append_pair(v: &mut Vec<Pair>, p: Pair)
    ensures
        pairs_view(final(v)@) == pairs_view(old(v)@).push(p@),
{
    v.push(p);
    assert(pairs_view(v@) =~= pairs_view(old(v)@).push(p@));
}

fn blank(b: u8) -> (r: bool)
    ensures
        r == is_space(b),
{
    b == 32 || b == 9 || b == 10 || b == 13
}

fn digit(b: u8) -> (r: bool)
    ensures
        r == is_digit(b),
{
    48 <= b && b <= 57
}

fn ident_start(b: u8) -> (r: bool)
    ensures
        r == is_ident_start(b),
{
    (65 <= b && b <= 90) || (97 <= b && b <= 122) || b == 95
}

fn ident_char(b: u8) -> (r: bool)
    ensures
        r == is_ident_char(b),
{
    ident_start(b) || digit(b)
}

fn skip_blanks(s: &[u8], pos: usize) -> (p: usize)
    requires
        pos <= s@.len(),
    ensures
        p == skip_ws(s@, pos as int),
        pos <= p <= s@.len(),
{
    let mut p = pos;
    while p < s.len() && blank(s[p])
        invariant
            pos <= p <= s@.len(),
            skip_ws(s@, p as int) == skip_ws(s@, pos as int),
        decreases s@.len() - p,
    {
        p += 1;
    }
    p
}

fn scan_ident(s: &[u8], pos: usize) -> (p: usize)
    requires
        pos <= s@.len(),
    ensures
        p == ident_end(s@, pos as int),
        pos <= p <= s@.len(),
{
    let mut p = pos;
    while p < s.len() && ident_char(s[p])
        invariant
            pos <= p <= s@.len(),
            ident_end(s@, p as int) == ident_end(s@, pos as int),
        decreases s@.len() - p,
    {
        p += 1;
    }
    p
}

fn scan_digits(s: &[u8], pos: usize) -> (p: usize)
    requires
        pos <= s@.len(),
    ensures
        p == digits_end(s@, pos as int),
        pos <= p <= s@.len(),
{
    let mut p = pos;
    while p < s.len() && (digit(s[p]) || s[p] == 95)
        invariant
            pos <= p <= s@.len(),
            digits_end(s@, p as int) == digits_end(s@, pos as int),
        decreases s@.len() - p,
    {
        p += 1;
    }
    p
}

fn scan_plain_digits(s: &[u8], pos: usize) -> (p: usize)
    requires
        pos <= s@.len(),
    ensures
        p == plain_digits_end(s@, pos as int),
        pos <= p <= s@.len(),
{
    let mut p = pos;
    while p < s.len() && digit(s[p])
        invariant
            pos <= p <= s@.len(),
            plain_digits_end(s@, p as int) == plain_digits_end(s@, pos as int),
        decreases s@.len() - p,
    {
        p += 1;
    }
    p
}

fn scan_quote(s: &[u8], pos: usize) -> (p: usize)
    requires
        pos <= s@.len(),
    ensures
        p == quote_at(s@, pos as int),
        pos <= p <= s@.len(),
{
    let mut p = pos;
    while p < s.len() && s[p] != 34
        invariant
            pos <= p <= s@.len(),
            quote_at(s@, p as int) == quote_at(s@, pos as int),
        decreases s@.len() - p,
    {
        p += 1;
    }
    p
}

/// Whether the outcome of a parsing function is what the grammar says.
pub open spec fn agrees(res: Option<(Pair, usize)>, spec: Option<(PairView, int)>) -> bool {
    match res {
        Some((p, e)) => spec == Some((p@, e as int)),
        None => spec is None,
    }
}

fn parse_ident(s: &[u8], pos: usize) -> (res: Option<(Pair, usize)>)
    requires
        pos <= s@.len(),
    ensures
        agrees(res, ident_spec(s@, pos as int)),
        res matches Some((_, e)) ==> pos < e <= s@.len(),
{
    if pos < s.len() && ident_start(s[pos]) {
        let e = scan_ident(s, pos + 1);
        Some((mk_leaf(Rule::ident, pos, e), e))
    } else {
        None
    }
}

fn parse_keyword(s: &[u8], pos: usize) -> (res: Option<(Pair, usize)>)
    requires
        pos <= s@.len(),
    ensures
        agrees(res, keyword_spec(s@, pos as int)),
        res matches Some((_, e)) ==> pos < e <= s@.len(),
{
    match parse_ident(s, pos) {
        Some((_, e)) => {
            if e < s.len() && s[e] == 58 {
                Some((mk_leaf(Rule::keyword, pos, e + 1), e + 1))
            } else {
                None
            }
        },
        None => None,
    }
}

fn scan_exponent(s: &[u8], pos: usize) -> (p: usize)
    requires
        pos <= s@.len(),
    ensures
        p == exponent_end(s@, pos as int),
        pos <= p <= s@.len(),
{
    if pos < s.len() && (s[pos] == 101 || s[pos] == 69) {
        let d = if pos + 1 < s.len() && (s[pos + 1] == 43 || s[pos + 1] == 45) {
            pos + 2
        } else {
            pos + 1
        };
        if d < s.len() && digit(s[d]) {
            scan_plain_digits(s, d + 1)
        } else {
            pos
        }
    } else {
        pos
    }
}

fn parse_number(s: &[u8], pos: usize) -> (res: Option<(Pair, usize)>)
    requires
        pos <= s@.len(),
    ensures
        agrees(res, number_spec(s@, pos as int)),
        res matches Some((_, e)) ==> pos < e <= s@.len(),
{
    if pos < s.len() && digit(s[pos]) {
        let a = scan_digits(s, pos + 1);
        let b = if a < s.len() && a + 1 < s.len() && s[a] == 46 && digit(s[a + 1]) {
            scan_digits(s, a + 2)
        } else {
            a
        };
        let c = scan_exponent(s, b);
        Some((mk_leaf(Rule::number, pos, c), c))
    } else {
        None
    }
}

fn parse_string(s: &[u8], pos: usize) -> (res: Option<(Pair, usize)>)
    requires
        pos <= s@.len(),
    ensures
        agrees(res, string_spec(s@, pos as int)),
        res matches Some((_, e)) ==> pos < e <= s@.len(),
{
    if pos < s.len() && s[pos] == 34 {
        let q = scan_quote(s, pos + 1);
        if q < s.len() {
            Some((mk_leaf(Rule::string, pos, q + 1), q + 1))
        } else {
            None
        }
    } else {
        None
    }
}

fn has_true(s: &[u8], pos: usize) -> (r: bool)
    requires
        pos <= s@.len(),
    ensures
        r == true_at(s@, pos as int),
{
    s.len() - pos >= 4 && s[pos] == 116 && s[pos + 1] == 114 && s[pos + 2] == 117 && s[pos + 3]
        == 101
}

fn has_false(s: &[u8], pos: usize) -> (r: bool)
    requires
        pos <= s@.len(),
    ensures
        r == false_at(s@, pos as int),
{
    s.len() - pos >= 5 && s[pos] == 102 && s[pos + 1] == 97 && s[pos + 2] == 108 && s[pos + 3]
        == 115 && s[pos + 4] == 101
}

fn parse_bool(s: &[u8], pos: usize) -> (res: Option<(Pair, usize)>)
    requires
        pos <= s@.len(),
    ensures
        agrees(res, bool_spec(s@, pos as int)),
        res matches Some((_, e)) ==> pos < e <= s@.len(),
{
    let n = s.len();
    if has_true(s, pos) {
        assert(pos + 4 <= n);
        let e = pos + 4;
        if !(e < s.len() && ident_char(s[e])) {
            return Some((mk_leaf(Rule::bool, pos, e), e));
        }
    }
    if has_false(s, pos) {
        assert(pos + 5 <= n);
        let e = pos + 5;
        if !(e < s.len() && ident_char(s[e])) {
            return Some((mk_leaf(Rule::bool, pos, e), e));
        }
    }
    None
}

fn parse_variable(s: &[u8], pos: usize) -> (res: Option<(Pair, usize)>)
    requires
        pos <= s@.len(),
    ensures
        agrees(res, variable_spec(s@, pos as int)),
        res matches Some((_, e)) ==> pos < e <= s@.len(),
{
    match parse_ident(s, pos) {
        Some((id, e)) => {
            let mut ids = one(id);
            let mut end = skip_blanks(s, e);
            let ghost goal = var_more_spec(s@, end as int, pairs_view(ids@));
            loop
                invariant
                    pos < end <= s@.len(),
                    var_more_spec(s@, end as int, pairs_view(ids@)) == goal,
                ensures
                    pos < end <= s@.len(),
                    (pairs_view(ids@), end as int) == goal,
                decreases s@.len() - end,
            {
                let p = skip_blanks(s, end);
                if !(p < s.len() && s[p] == 46) {
                    break ;
                }
                let q = skip_blanks(s, p + 1);
                match parse_ident(s, q) {
                    Some((id, e)) => {
                        append_pair(&mut ids, id);
                        end = e;
                    },
                    None => {
                        break ;
                    },
                }
            }
            Some((mk_pair(Rule::variable, pos, end, ids), end))
        },
        None => None,
    }
}

fn parse_block_args(s: &[u8], pos: usize) -> (res: Option<(Pair, usize)>)
    requires
        pos <= s@.len(),
    ensures
        agrees(res, block_args_spec(s@, pos as int)),
        res matches Some((_, e)) ==> pos < e <= s@.len(),
{
    match parse_ident(s, pos) {
        Some((id, e)) => {
            let mut ids = one(id);
            let mut end = skip_blanks(s, e);
            let ghost goal = idents_more_spec(s@, end as int, pairs_view(ids@));
            loop
                invariant
                    pos < end <= s@.len(),
                    idents_more_spec(s@, end as int, pairs_view(ids@)) == goal,
                ensures
                    pos < end <= s@.len(),
                    (pairs_view(ids@), end as int) == goal,
                decreases s@.len() - end,
            {
                let p = skip_blanks(s, end);
                match parse_ident(s, p) {
                    Some((id, e)) => {
                        append_pair(&mut ids, id);
                        end = e;
                    },
                    None => {
                        break ;
                    },
                }
            }
            let q = skip_blanks(s, end);
            if q < s.len() && q + 1 < s.len() && s[q] == 61 && s[q + 1] == 62 {
                Some((mk_pair(Rule::block_args, pos, q + 2, ids), q + 2))
            } else {
                None
            }
        },
        None => None,
    }
}

fn parse_term(s: &[u8], pos: usize) -> (res: Option<(Pair, usize)>)
    requires
        pos <= s@.len(),
    ensures
        agrees(res, term_spec(s@, pos as int)),
        res matches Some((_, e)) ==> pos < e <= s@.len(),
    decreases s@.len() - pos, 9int,
{
    if pos >= s.len() {
        return None;
    }
    let r = parse_apply(s, pos);
    if r.is_some() {
        return r;
    }
    let r = parse_bool(s, pos);
    if r.is_some() {
        return r;
    }
    let r = parse_number(s, pos);
    if r.is_some() {
        return r;
    }
    let r = parse_string(s, pos);
    if r.is_some() {
        return r;
    }
    let r = parse_variable(s, pos);
    if r.is_some() {
        return r;
    }
    let r = parse_list(s, pos);
    if r.is_some() {
        return r;
    }
    let r = parse_record(s, pos);
    if r.is_some() {
        return r;
    }
    parse_block(s, pos)
}

fn parse_apply(s: &[u8], pos: usize) -> (res: Option<(Pair, usize)>)
    requires
        pos <= s@.len(),
    ensures
        agrees(res, apply_spec(s@, pos as int)),
        res matches Some((_, e)) ==> pos < e <= s@.len(),
    decreases s@.len() - pos, 8int,
{
    if pos >= s.len() {
        return None;
    }
    match parse_argument(s, pos) {
        Some((a, e)) => {
            let mut args = one(a);
            let mut end = skip_blanks(s, e);
            let ghost goal = args_more_spec(s@, end as int, pairs_view(args@));
            loop
                invariant
                    pos < end <= s@.len(),
                    args_more_spec(s@, end as int, pairs_view(args@)) == goal,
                ensures
                    pos < end <= s@.len(),
                    (pairs_view(args@), end as int) == goal,
                decreases s@.len() - end,
            {
                let p = skip_blanks(s, end);
                if p >= s.len() {
                    break ;
                }
                match parse_argument(s, p) {
                    Some((a, e)) => {
                        append_pair(&mut args, a);
                        end = e;
                    },
                    None => {
                        break ;
                    },
                }
            }
            Some((mk_pair(Rule::apply, pos, end, args), end))
        },
        None => None,
    }
}

fn parse_argument(s: &[u8], pos: usize) -> (res: Option<(Pair, usize)>)
    requires
        pos <= s@.len(),
    ensures
        agrees(res, argument_spec(s@, pos as int)),
        res matches Some((_, e)) ==> pos < e <= s@.len(),
    decreases s@.len() - pos, 6int,
{
    match parse_keyword(s, pos) {
        Some((k, e1)) => {
            let p = skip_blanks(s, e1);
            if p < s.len() {
                match parse_term(s, p) {
                    Some((t, e2)) => Some((mk_pair(Rule::argument, pos, e2, two(k, t)), e2)),
                    None => None,
                }
            } else {
                None
            }
        },
        None => None,
    }
}

fn parse_list(s: &[u8], pos: usize) -> (res: Option<(Pair, usize)>)
    requires
        pos <= s@.len(),
    ensures
        agrees(res, list_spec(s@, pos as int)),
        res matches Some((_, e)) ==> pos < e <= s@.len(),
    decreases s@.len() - pos, 7int,
{
    if pos < s.len() && s[pos] == 91 {
        let mut items: Vec<Pair> = Vec::new();
        assert(pairs_view(items@) =~= Seq::empty());
        let mut p = skip_blanks(s, pos + 1);
        let ghost goal = items_spec(s@, p as int, pairs_view(items@));
        loop
            invariant
                pos < p <= s@.len(),
                items_spec(s@, p as int, pairs_view(items@)) == goal,
            ensures
                pos < p <= s@.len(),
                (pairs_view(items@), p as int) == goal,
            decreases s@.len() - p,
        {
            if p >= s.len() {
                break ;
            }
            match parse_term(s, p) {
                Some((t, e)) => {
                    append_pair(&mut items, t);
                    p = skip_blanks(s, e);
                },
                None => {
                    break ;
                },
            }
        }
        if p < s.len() && s[p] == 93 {
            Some((mk_pair(Rule::list, pos, p + 1, items), p + 1))
        } else {
            None
        }
    } else {
        None
    }
}

fn parse_entry(s: &[u8], pos: usize) -> (res: Option<(Pair, usize)>)
    requires
        pos <= s@.len(),
    ensures
        agrees(res, entry_spec(s@, pos as int)),
        res matches Some((_, e)) ==> pos < e <= s@.len(),
    decreases s@.len() - pos, 6int,
{
    match parse_ident(s, pos) {
        Some((id, e1)) => {
            let q = skip_blanks(s, e1);
            if q < s.len() && s[q] == 61 {
                let r = skip_blanks(s, q + 1);
                if r < s.len() {
                    match parse_term(s, r) {
                        Some((t, e2)) => Some((mk_pair(Rule::entry, pos, e2, two(id, t)), e2)),
                        None => None,
                    }
                } else {
                    None
                }
            } else {
                None
            }
        },
        None => None,
    }
}

fn parse_record(s: &[u8], pos: usize) -> (res: Option<(Pair, usize)>)
    requires
        pos <= s@.len(),
    ensures
        agrees(res, record_spec(s@, pos as int)),
        res matches Some((_, e)) ==> pos < e <= s@.len(),
    decreases s@.len() - pos, 7int,
{
    if pos < s.len() && s[pos] == 91 {
        let mut entries: Vec<Pair> = Vec::new();
        assert(pairs_view(entries@) =~= Seq::empty());
        let mut p = skip_blanks(s, pos + 1);
        let ghost goal = entries_spec(s@, p as int, pairs_view(entries@));
        loop
            invariant
                pos < p <= s@.len(),
                entries_spec(s@, p as int, pairs_view(entries@)) == goal,
            ensures
                pos < p <= s@.len(),
                (pairs_view(entries@), p as int) == goal,
            decreases s@.len() - p,
        {
            if p >= s.len() {
                break ;
            }
            match parse_entry(s, p) {
                Some((t, e)) => {
                    append_pair(&mut entries, t);
                    p = skip_blanks(s, e);
                },
                None => {
                    break ;
                },
            }
        }
        if entries.len() > 0 && p < s.len() && s[p] == 93 {
            Some((mk_pair(Rule::record, pos, p + 1, entries), p + 1))
        } else {
            None
        }
    } else {
        None
    }
}

fn parse_block(s: &[u8], pos: usize) -> (res: Option<(Pair, usize)>)
    requires
        pos <= s@.len(),
    ensures
        agrees(res, block_spec(s@, pos as int)),
        res matches Some((_, e)) ==> pos < e <= s@.len(),
    decreases s@.len() - pos, 7int,
{
    if pos < s.len() && s[pos] == 123 {
        let p = skip_blanks(s, pos + 1);
        let args = parse_block_args(s, p);
        let body_at = match &args {
            Some((_, e)) => skip_blanks(s, *e),
            None => p,
        };
        if body_at < s.len() {
            match parse_term(s, body_at) {
                Some((t, e2)) => {
                    let q = skip_blanks(s, e2);
                    if q < s.len() && s[q] == 125 {
                        let inner = match args {
                            Some((ba, _)) => two(ba, t),
                            None => one(t),
                        };
                        Some((mk_pair(Rule::block, pos, q + 1, inner), q + 1))
                    } else {
                        None
                    }
                },
                None => None,
            }
        } else {
            None
        }
    } else {
        None
    }
}

/// The parser of the Rainbow grammar.
pub struct RainbowGrammar;

impl RainbowGrammar {
    /// What `rule` matches at the start of `input`, and where the match ends.
    pub fn parse_bytes(rule: Rule, input: &[u8]) -> (res: Option<(Pair, usize)>)
        ensures
            agrees(res, rule_spec(rule, input@)),
            res matches Some((_, e)) ==> 0 < e <= input@.len(),
    {
        match rule {
            Rule::term => parse_term(input, 0),
            Rule::apply => parse_apply(input, 0),
            Rule::argument => parse_argument(input, 0),
            Rule::keyword => parse_keyword(input, 0),
            Rule::variable => parse_variable(input, 0),
            Rule::list => parse_list(input, 0),
            Rule::record => parse_record(input, 0),
            Rule::entry => parse_entry(input, 0),
            Rule::block => parse_block(input, 0),
            Rule::block_args => parse_block_args(input, 0),
            Rule::ident => parse_ident(input, 0),
            Rule::number => parse_number(input, 0),
            Rule::string => parse_string(input, 0),
            Rule::bool => parse_bool(input, 0),
        }
    }

    /// What `rule` matches at the start of `input`.
    pub fn parse(rule: Rule, input: &str) -> (res: Option<Pair>)
        ensures
            match res {
                Some(p) => rule_spec(rule, input.spec_bytes()) matches Some((v, _)) && v == p@,
                None => rule_spec(rule, input.spec_bytes()) is None,
            },
    {
        match RainbowGrammar::parse_bytes(rule, input.as_bytes()) {
            Some((p, _)) => Some(p),
            None => None,
        }
    }
}

} // verus!
