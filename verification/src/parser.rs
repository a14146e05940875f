use vstd::prelude::*;

use crate::ast::{Cmd, CmdV, Loc, SyntaxError, SyntaxKind, Var, cmd_view, cmds_view,
    lemma_cmds_view};

verus! {

broadcast use vstd::seq::group_seq_axioms, vstd::std_specs::vec::group_vec_axioms;

/// The insignificant characters: space, tab, carriage return, line feed.
pub open spec fn is_ws(c: char) -> bool {
    c == ' ' || c == '\t' || c == '\r' || c == '\n'
}

pub open spec fn is_digit(c: char) -> bool {
    48 <= c as u32 && c as u32 <= 57
}

pub open spec fn digit_val(c: char) -> int {
    c as u32 - 48
}

/// The characters that prefix a one-name command.
pub open spec fn is_prefix(c: char) -> bool {
    c == '=' || c == '$' || c == '+' || c == '-' || c == '%' || c == '@' || c == '*' || c == '^'
}

/// The command a prefix character builds.
pub open spec fn prefix_cmd(c: char, name: Var, loc: Loc) -> CmdV {
    if c == '=' {
        CmdV::Assign(name)
    } else if c == '$' {
        CmdV::Stack(name)
    } else if c == '+' {
        CmdV::Add(name)
    } else if c == '-' {
        CmdV::Sub(name)
    } else if c == '%' {
        CmdV::Var(name)
    } else if c == '@' {
        CmdV::Call(name, loc)
    } else if c == '*' {
        CmdV::Mark(name)
    } else {
        CmdV::Goto(name, loc)
    }
}

/// How many bytes a character occupies in UTF-8.
pub open spec fn utf8_len(c: char) -> nat {
    let u = c as u32;
    if u < 0x80 {
        1
    } else if u < 0x800 {
        2
    } else if u < 0x10000 {
        3
    } else {
        4
    }
}

/// The byte offset of character position `p`.
pub open spec fn bytes_upto(s: Seq<char>, p: nat) -> nat
    decreases p,
{
    if p == 0 {
        0
    } else {
        bytes_upto(s, (p - 1) as nat) + utf8_len(s[p - 1])
    }
}

pub proof fn lemma_bytes_upto_mono(s: Seq<char>, p: nat, q: nat)
    requires
        p <= q,
    ensures
        bytes_upto(s, p) <= bytes_upto(s, q),
    decreases q,
{
    if p < q {
        lemma_bytes_upto_mono(s, p, (q - 1) as nat);
    }
}

/// Position after whitespace; a `;` opens a comment that runs to the end of
/// the line.
pub open spec fn skip_trivia(s: Seq<char>, p: nat) -> nat
    decreases s.len() - p, 0int,
{
    if p >= s.len() {
        p
    } else if is_ws(s[p as int]) {
        skip_trivia(s, p + 1)
    } else if s[p as int] == ';' {
        skip_comment(s, p + 1)
    } else {
        p
    }
}

/// Position after the rest of a comment line and whatever trivia follows.
pub open spec fn skip_comment(s: Seq<char>, p: nat) -> nat
    decreases s.len() - p, 1int,
{
    if p >= s.len() {
        p
    } else if s[p as int] != '\n' {
        skip_comment(s, p + 1)
    } else {
        skip_trivia(s, p)
    }
}

/// `skip_trivia`, clamped below by `p` (it never moves backwards; the clamp
/// makes that shape available to termination checking).
pub open spec fn trivia_from(s: Seq<char>, p: nat) -> nat {
    let q = skip_trivia(s, p);
    if q < p {
        p
    } else {
        q
    }
}

/// Position just past the digits that start at `p`.
pub open spec fn digits_end(s: Seq<char>, p: nat) -> nat
    decreases s.len() - p,
{
    if p < s.len() && is_digit(s[p as int]) {
        digits_end(s, p + 1)
    } else {
        p
    }
}

/// The value of the digit run `s[p .. e]`, read as a decimal number.
pub open spec fn num_val(s: Seq<char>, p: nat, e: nat) -> int
    decreases e,
{
    if e <= p {
        0
    } else {
        num_val(s, p, (e - 1) as nat) * 10 + digit_val(s[e - 1])
    }
}

pub proof fn lemma_num_val_nonneg(s: Seq<char>, p: nat, e: nat)
    requires
        forall|i: int| p <= i < e ==> is_digit(s[i]),
    ensures
        num_val(s, p, e) >= 0,
    decreases e,
{
    if e > p {
        lemma_num_val_nonneg(s, p, (e - 1) as nat);
    }
}

pub proof fn lemma_num_val_mono(s: Seq<char>, p: nat, m: nat, e: nat)
    requires
        m <= e,
        forall|i: int| p <= i < e ==> is_digit(s[i]),
    ensures
        num_val(s, p, m) <= num_val(s, p, e),
    decreases e,
{
    if m < e {
        lemma_num_val_mono(s, p, m, (e - 1) as nat);
        lemma_num_val_nonneg(s, p, (e - 1) as nat);
    }
}

/// The outcome of trying one command at a position.
#[verifier::ext_equal]
pub ghost enum CmdStep {
    /// No command starts here: the list ends.
    NoMatch,
    /// A command, and the position just past it.
    Found(CmdV, nat),
    /// A malformed command.
    Failed(SyntaxError),
}

/// The outcome of a command list.
#[verifier::ext_equal]
pub ghost enum ListStep {
    /// The commands, and the position where the list stopped (trivia
    /// consumed).
    Items(Seq<CmdV>, nat),
    Failed(SyntaxError),
}

fn mk_prefix(c: char, name: Var, loc: Loc) -> (r: Cmd)
    ensures
        cmd_view(r) == prefix_cmd(c, name, loc),
{
    if c == '=' {
        Cmd::Assign(name)
    } else if c == '$' {
        Cmd::Stack(name)
    } else if c == '+' {
        Cmd::Add(name)
    } else if c == '-' {
        Cmd::Sub(name)
    } else if c == '%' {
        Cmd::Var(name)
    } else if c == '@' {
        Cmd::Call(name, loc)
    } else if c == '*' {
        Cmd::Mark(name)
    } else {
        Cmd::Goto(name, loc)
    }
}

fn mk_macro(name: Var, cs: Vec<Cmd>) -> (r: Cmd)
    ensures
        cmd_view(r) == CmdV::Macro(name, cmds_view(cs@)),
{
    Cmd::Macro(name, cs)
}

/// Parse one command at `p` (`p` already past any trivia).
pub open spec fn spec_parse_cmd(s: Seq<char>, p: nat) -> CmdStep
    decreases s.len() - p, 0int,
{
    if p >= s.len() {
        CmdStep::NoMatch
    } else {
        let c = s[p as int];
        if is_prefix(c) {
            let q = trivia_from(s, p + 1);
            if q >= s.len() {
                CmdStep::Failed(
                    SyntaxError { loc: Loc(bytes_upto(s, q) as usize), kind: SyntaxKind::Unexpected },
                )
            } else {
                CmdStep::Found(
                    prefix_cmd(c, Var(s[q as int]), Loc(bytes_upto(s, p) as usize)),
                    q + 1,
                )
            }
        } else if c == '[' {
            match spec_parse_cmds(s, p + 1) {
                ListStep::Items(cs, e) => if e < s.len() && s[e as int] == ']' {
                    CmdStep::Found(CmdV::Group(cs), e + 1)
                } else {
                    CmdStep::Failed(
                        SyntaxError {
                            loc: Loc(bytes_upto(s, e) as usize),
                            kind: SyntaxKind::Unexpected,
                        },
                    )
                },
                ListStep::Failed(f) => CmdStep::Failed(f),
            }
        } else if c == '{' {
            let q = trivia_from(s, p + 1);
            if q >= s.len() {
                CmdStep::Failed(
                    SyntaxError { loc: Loc(bytes_upto(s, q) as usize), kind: SyntaxKind::Unexpected },
                )
            } else {
                match spec_parse_cmds(s, q + 1) {
                    ListStep::Items(cs, e) => if e < s.len() && s[e as int] == '}' {
                        CmdStep::Found(CmdV::Macro(Var(s[q as int]), cs), e + 1)
                    } else {
                        CmdStep::Failed(
                            SyntaxError {
                                loc: Loc(bytes_upto(s, e) as usize),
                                kind: SyntaxKind::Unexpected,
                            },
                        )
                    },
                    ListStep::Failed(f) => CmdStep::Failed(f),
                }
            }
        } else if is_digit(c) {
            let e = digits_end(s, p);
            let val = num_val(s, p, e);
            if val > i64::MAX {
                CmdStep::Failed(
                    SyntaxError {
                        loc: Loc(bytes_upto(s, p) as usize),
                        kind: SyntaxKind::NumberTooLarge,
                    },
                )
            } else {
                CmdStep::Found(CmdV::Num(val as i64), e)
            }
        } else {
            CmdStep::NoMatch
        }
    }
}

/// Parse commands from `p` until no further command starts; leading and
/// trailing trivia are consumed.
pub open spec fn spec_parse_cmds(s: Seq<char>, p: nat) -> ListStep
    decreases s.len() - p, 1int,
{
    let q = trivia_from(s, p);
    if q > s.len() {
        ListStep::Items(Seq::empty(), q)
    } else {
        match spec_parse_cmd(s, q) {
            CmdStep::NoMatch => ListStep::Items(Seq::empty(), q),
            CmdStep::Failed(f) => ListStep::Failed(f),
            CmdStep::Found(c, r) => if q < r && r <= s.len() {
                match spec_parse_cmds(s, r) {
                    ListStep::Items(rest, e) => ListStep::Items(seq![c] + rest, e),
                    ListStep::Failed(f) => ListStep::Failed(f),
                }
            } else {
                ListStep::Items(Seq::empty(), q)
            },
        }
    }
}

/// What parsing a whole text yields: its command sequence, or the first
/// syntax error. The text must be consumed entirely.
pub open spec fn spec_parse(s: Seq<char>) -> Result<Seq<CmdV>, SyntaxError> {
    match spec_parse_cmds(s, 0) {
        ListStep::Items(cs, e) => if e == s.len() {
            Result::Ok(cs)
        } else {
            Result::Err(
                SyntaxError { loc: Loc(bytes_upto(s, e) as usize), kind: SyntaxKind::Unexpected },
            )
        },
        ListStep::Failed(f) => Result::Err(f),
    }
}

/// Parsing is deterministic: one text, one result.
pub proof fn lemma_parse_deterministic(s1: Seq<char>, s2: Seq<char>)
    requires
        s1 == s2,
    ensures
        spec_parse(s1) == spec_parse(s2),
{
}

/// Relies on `str::chars`: the characters of the text, in order; a real
/// string's total UTF-8 byte length is its `len()`, which fits in `usize`.
#[verifier::external_body]
fn chars_of(s: &str) -> (r: Vec<char>)
    ensures
        r@ == s@,
        bytes_upto(r@, r@.len() as nat) <= usize::MAX as nat,
{
    s.chars().collect()
}

fn utf8_len_x(c: char) -> (r: usize)
    ensures
        r as nat == utf8_len(c),
{
    let u = c as u32;
    if u < 0x80 {
        1
    } else if u < 0x800 {
        2
    } else if u < 0x10000 {
        3
    } else {
        4
    }
}

/// The byte offset of character position `p`.
fn byte_pos(v: &Vec<char>, p: usize) -> (r: usize)
    requires
        p <= v@.len(),
        bytes_upto(v@, v@.len() as nat) <= usize::MAX as nat,
    ensures
        r as nat == bytes_upto(v@, p as nat),
{
    let mut b: usize = 0;
    let mut i: usize = 0;
    while i < p
        invariant
            i <= p <= v@.len(),
            bytes_upto(v@, v@.len() as nat) <= usize::MAX as nat,
            b as nat == bytes_upto(v@, i as nat),
        decreases p - i,
    {
        proof {
            lemma_bytes_upto_mono(v@, i as nat + 1, v@.len() as nat);
        }
        let l = utf8_len_x(v[i]);
        b = b + l;
        i = i + 1;
    }
    b
}

/// Position after whitespace and line comments.
fn skip_ws(v: &Vec<char>, start: usize) -> (r: usize)
    requires
        start <= v@.len(),
    ensures
        r as nat == trivia_from(v@, start as nat),
        start <= r <= v@.len(),
{
    let mut p: usize = start;
    let mut in_comment: bool = false;
    loop
        invariant
            start <= p <= v@.len(),
            if in_comment {
                skip_comment(v@, p as nat) == skip_trivia(v@, start as nat)
            } else {
                skip_trivia(v@, p as nat) == skip_trivia(v@, start as nat)
            },
        decreases v@.len() - p,
    {
        if p >= v.len() {
            proof {
                lemma_trivia_bounds(v@, start as nat);
            }
            return p;
        }
        let c = v[p];
        if in_comment {
            if c == '\n' {
                proof {
                    assert(skip_comment(v@, p as nat) == skip_trivia(v@, p as nat));
                    assert(skip_trivia(v@, p as nat) == skip_trivia(v@, p as nat + 1));
                }
                in_comment = false;
            } else {
                proof {
                    assert(skip_comment(v@, p as nat) == skip_comment(v@, p as nat + 1));
                }
            }
            p = p + 1;
        } else if c == ' ' || c == '\t' || c == '\r' || c == '\n' {
            proof {
                assert(is_ws(v@[p as int]));
                assert(skip_trivia(v@, p as nat) == skip_trivia(v@, p as nat + 1));
            }
            p = p + 1;
        } else if c == ';' {
            proof {
                assert(skip_trivia(v@, p as nat) == skip_comment(v@, p as nat + 1));
            }
            in_comment = true;
            p = p + 1;
        } else {
            proof {
                lemma_trivia_bounds(v@, start as nat);
            }
            return p;
        }
    }
}

pub proof fn lemma_trivia_bounds(s: Seq<char>, p: nat)
    ensures
        p <= skip_trivia(s, p) <= s.len() || (p > s.len() && skip_trivia(s, p) == p),
        trivia_from(s, p) == skip_trivia(s, p) || trivia_from(s, p) == p,
    decreases s.len() - p, 0int,
{
    if p < s.len() {
        if is_ws(s[p as int]) {
            lemma_trivia_bounds(s, p + 1);
        } else if s[p as int] == ';' {
            lemma_comment_bounds(s, p + 1);
        }
    }
}

pub proof fn lemma_comment_bounds(s: Seq<char>, p: nat)
    ensures
        p <= skip_comment(s, p) <= s.len() || (p > s.len() && skip_comment(s, p) == p),
    decreases s.len() - p, 1int,
{
    if p < s.len() {
        if s[p as int] != '\n' {
            lemma_comment_bounds(s, p + 1);
        } else {
            lemma_trivia_bounds(s, p);
        }
    }
}

/// Parse one command at `pos` (`pos` already past any trivia).
/// `Ok(None)` means no command starts here.
fn p_cmd(v: &Vec<char>, pos: usize) -> (r: Result<Option<(Cmd, usize)>, SyntaxError>)
    requires
        pos <= v@.len(),
        bytes_upto(v@, v@.len() as nat) <= usize::MAX as nat,
    ensures
        (match r {
            Result::Ok(o) => match o {
                Option::None => spec_parse_cmd(v@, pos as nat) == CmdStep::NoMatch,
                Option::Some(p) => spec_parse_cmd(v@, pos as nat) == CmdStep::Found(
                    cmd_view(p.0),
                    p.1 as nat,
                ) && pos < p.1 <= v@.len(),
            },
            Result::Err(e) => spec_parse_cmd(v@, pos as nat) == CmdStep::Failed(e),
        }),
    decreases v@.len() - pos, 0int,
{
    if pos >= v.len() {
        return Ok(None);
    }
    let c = v[pos];
    if c == '=' || c == '$' || c == '+' || c == '-' || c == '%' || c == '@' || c == '*' || c == '^' {
        let q = skip_ws(v, pos + 1);
        if q >= v.len() {
            let b = byte_pos(v, q);
            return Err(SyntaxError { loc: Loc(b), kind: SyntaxKind::Unexpected });
        }
        let name = Var(v[q]);
        let b = byte_pos(v, pos);
        let loc = Loc(b);
        let cmd: Cmd = mk_prefix(c, name, loc);
        proof {
            assert(is_prefix(c));
            assert(name == Var(v@[q as int]));
            assert(bytes_upto(v@, pos as nat) as usize == b);
            assert(loc == Loc(bytes_upto(v@, pos as nat) as usize));
            assert(spec_parse_cmd(v@, pos as nat) == CmdStep::Found(cmd_view(cmd), q as nat + 1));
        }
        Ok(Some((cmd, q + 1)))
    } else if c == '[' {
        let (res, e) = p_cmds(v, pos + 1);
        match res {
            Result::Err(f) => Err(f),
            Result::Ok(cs) => {
                if e < v.len() && v[e] == ']' {
                    proof {
                        assert(spec_parse_cmd(v@, pos as nat) == CmdStep::Found(
                            cmd_view(Cmd::Group(cs)),
                            e as nat + 1,
                        ));
                    }
                    Ok(Some((Cmd::Group(cs), e + 1)))
                } else {
                    let b = byte_pos(v, e);
                    Err(SyntaxError { loc: Loc(b), kind: SyntaxKind::Unexpected })
                }
            },
        }
    } else if c == '{' {
        let q = skip_ws(v, pos + 1);
        if q >= v.len() {
            let b = byte_pos(v, q);
            return Err(SyntaxError { loc: Loc(b), kind: SyntaxKind::Unexpected });
        }
        let name = Var(v[q]);
        let (res, e) = p_cmds(v, q + 1);
        match res {
            Result::Err(f) => Err(f),
            Result::Ok(cs) => {
                if e < v.len() && v[e] == '}' {
                    let m = mk_macro(name, cs);
                    proof {
                        assert(spec_parse_cmd(v@, pos as nat) == CmdStep::Found(
                            cmd_view(m),
                            e as nat + 1,
                        ));
                    }
                    Ok(Some((m, e + 1)))
                } else {
                    let b = byte_pos(v, e);
                    Err(SyntaxError { loc: Loc(b), kind: SyntaxKind::Unexpected })
                }
            },
        }
    } else if 48 <= c as u32 && c as u32 <= 57 {
        let mut j: usize = pos;
        let mut acc: u64 = 0;
        let ghost s = v@;
        while j < v.len() && 48 <= v[j] as u32 && v[j] as u32 <= 57
            invariant
                pos <= j <= v@.len(),
                v@ == s,
                pos < v@.len(),
                bytes_upto(v@, v@.len() as nat) <= usize::MAX as nat,
                forall|i: int| pos <= i < j ==> is_digit(s[i]),
                acc as int == num_val(s, pos as nat, j as nat),
                acc <= i64::MAX as u64,
                digits_end(s, pos as nat) == digits_end(s, j as nat),
            decreases v@.len() - j,
        {
            let d: u64 = (v[j] as u32 - 48) as u64;
            let t: u128 = acc as u128 * 10 + d as u128;
            if t > i64::MAX as u128 {
                proof {
                    lemma_digits_end_digits(s, pos as nat);
                    lemma_digits_end_digits(s, j as nat + 1);
                    assert(digits_end(s, j as nat) == digits_end(s, j as nat + 1));
                    assert(j as nat + 1 <= digits_end(s, pos as nat));
                    lemma_num_val_mono(s, pos as nat, j as nat + 1, digits_end(s, pos as nat));
                }
                let b = byte_pos(v, pos);
                return Err(SyntaxError { loc: Loc(b), kind: SyntaxKind::NumberTooLarge });
            }
            acc = t as u64;
            j = j + 1;
        }
        proof {
            lemma_num_val_nonneg(s, pos as nat, j as nat);
            assert(digits_end(s, j as nat) == j as nat);
            assert(pos < j);
            assert(spec_parse_cmd(v@, pos as nat) == CmdStep::Found(
                cmd_view(Cmd::Num(acc as i64)),
                j as nat,
            ));
        }
        Ok(Some((Cmd::Num(acc as i64), j)))
    } else {
        Ok(None)
    }
}

pub proof fn lemma_digits_end_digits(s: Seq<char>, p: nat)
    ensures
        forall|i: int| p <= i < digits_end(s, p) ==> is_digit(s[i]),
        p <= digits_end(s, p),
        digits_end(s, p) <= s.len() || digits_end(s, p) == p,
    decreases s.len() - p,
{
    if p < s.len() && is_digit(s[p as int]) {
        lemma_digits_end_digits(s, p + 1);
    }
}

/// Parse commands from `start` until no further command starts; the second
/// component is where the list stopped.
fn p_cmds(v: &Vec<char>, start: usize) -> (r: (Result<Vec<Cmd>, SyntaxError>, usize))
    requires
        start <= v@.len(),
        bytes_upto(v@, v@.len() as nat) <= usize::MAX as nat,
    ensures
        (match r.0 {
            Result::Ok(cs) => spec_parse_cmds(v@, start as nat) == ListStep::Items(
                cmds_view(cs@),
                r.1 as nat,
            ) && start <= r.1 <= v@.len(),
            Result::Err(e) => spec_parse_cmds(v@, start as nat) == ListStep::Failed(e),
        }),
    decreases v@.len() - start, 1int,
{
    let mut out: Vec<Cmd> = Vec::new();
    let mut p: usize = start;
    loop
        invariant
            start <= p <= v@.len(),
            bytes_upto(v@, v@.len() as nat) <= usize::MAX as nat,
            (match spec_parse_cmds(v@, p as nat) {
                ListStep::Items(rest, e) => spec_parse_cmds(v@, start as nat) == ListStep::Items(
                    cmds_view(out@) + rest,
                    e,
                ),
                ListStep::Failed(f) => spec_parse_cmds(v@, start as nat) == ListStep::Failed(f),
            }),
        decreases v@.len() - p,
    {
        let q = skip_ws(v, p);
        match p_cmd(v, q) {
            Result::Err(f) => {
                return (Err(f), q);
            },
            Result::Ok(o) => match o {
                Option::None => {
                    proof {
                        lemma_cmds_view(out@);
                        assert(cmds_view(out@) + Seq::<CmdV>::empty() =~= cmds_view(out@));
                    }
                    return (Ok(out), q);
                },
                Option::Some(pair) => {
                    let (c, next) = pair;
                    let ghost prev = out@;
                    out.push(c);
                    proof {
                        lemma_cmds_view_push(prev, c);
                        lemma_seq_assoc(cmds_view(prev), cmd_view(c), v@, next as nat);
                    }
                    p = next;
                },
            },
        }
    }
}

pub proof fn lemma_cmds_view_push(s: Seq<Cmd>, c: Cmd)
    ensures
        cmds_view(s.push(c)) == cmds_view(s).push(cmd_view(c)),
{
    assert(s.push(c).subrange(0, s.push(c).len() - 1) =~= s);
}

pub proof fn lemma_seq_assoc(a: Seq<CmdV>, c: CmdV, s: Seq<char>, next: nat)
    ensures
        (match spec_parse_cmds(s, next) {
            ListStep::Items(rest, e) => a.push(c) + rest =~= a + (seq![c] + rest),
            ListStep::Failed(f) => true,
        }),
{
}

/// Parse a whole text into its command sequence; the text must be consumed
/// entirely, else the first stuck position is reported.
pub fn cmds(src: &str) -> (r: Result<Vec<Cmd>, SyntaxError>)
    ensures
        (match r {
            Result::Ok(cs) => spec_parse(src@) == Result::<Seq<CmdV>, SyntaxError>::Ok(
                cmds_view(cs@),
            ),
            Result::Err(e) => spec_parse(src@) == Result::<Seq<CmdV>, SyntaxError>::Err(e),
        }),
{
    let v = chars_of(src);
    let (res, end) = p_cmds(&v, 0);
    match res {
        Result::Err(e) => Err(e),
        Result::Ok(cs) => {
            if end == v.len() {
                Ok(cs)
            } else {
                let b = byte_pos(&v, end);
                Err(SyntaxError { loc: Loc(b), kind: SyntaxKind::Unexpected })
            }
        },
    }
}

} // verus!
