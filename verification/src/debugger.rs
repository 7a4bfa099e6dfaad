//! The command interpreter: line-oriented script text parsed into an ordered
//! command sequence, with nested loop-until-breakpoint blocks.
//!
//! Blank lines and lines starting with `#` are ignored. Addresses are
//! hexadecimal: a bare linear value, or `segment:offset` resolving to
//! `segment * 16 + offset`.

use crate::engine::Reg;
use crate::engine::spec_reg_of;
use crate::engine::reg_of_bytes;
use vstd::prelude::*;
use vstd::string::StringSliceAdditionalSpecFns;

verus! {

/// How a debugger script failed to parse. Block termination gets its own
/// variant so a missing `}` is reported as such, not as a generic failure.
#[derive(PartialEq, Eq, Structural, Debug, Clone, Copy)]
pub enum ParseErrorKind {
    /// A line that is no known command.
    UnknownCommand,
    /// A malformed loop-until-breakpoint header.
    BadWhile,
    /// An address argument that is not hexadecimal, or whose register pair is
    /// unknown.
    BadAddress,
    /// A loop block whose closing `}` is missing when the input ends.
    UnterminatedBlock,
}

/// A fatal script parse failure, reported with the 1-based number of the
/// offending line (for an unterminated block: of the line that opened it).
#[derive(PartialEq, Eq, Structural, Debug, Clone, Copy)]
pub struct ParseError {
    pub line: usize,
    pub kind: ParseErrorKind,
}

/// What a print command inspects: the full register snapshot, the
/// little-endian word at a linear address, or the word addressed by a
/// segment:offset pair read live from two named registers.
#[derive(PartialEq, Eq, Structural, Debug, Clone, Copy)]
pub enum PrintTarget {
    Linear(u64),
    Registers(Reg, Reg),
}

/// A parsed debugger command. Immutable once parsed.
#[derive(Debug)]
pub enum Command {
    Quit,
    Print(Option<PrintTarget>),
    Run,
    Step,
    Continue,
    SetVerbose(bool),
    SetBreak(u64),
    LoopUntilBreak { addr: u64, body: Vec<Command> },
}

/// The mathematical shape of a parsed command, with loop bodies as
/// sequences.
pub enum CmdModel {
    Quit,
    Print(Option<PrintTarget>),
    Run,
    Step,
    Continue,
    SetVerbose(bool),
    SetBreak(u64),
    LoopUntilBreak { addr: u64, body: Seq<CmdModel> },
}

/// The model of one parsed command.
pub open spec fn cmd_model(c: Command) -> CmdModel
    decreases c,
{
    match c {
        Command::Quit => CmdModel::Quit,
        Command::Print(t) => CmdModel::Print(t),
        Command::Run => CmdModel::Run,
        Command::Step => CmdModel::Step,
        Command::Continue => CmdModel::Continue,
        Command::SetVerbose(v) => CmdModel::SetVerbose(v),
        Command::SetBreak(a) => CmdModel::SetBreak(a),
        Command::LoopUntilBreak { addr, body } => CmdModel::LoopUntilBreak {
            addr,
            body: cmds_model(body@),
        },
    }
}

/// The models of a sequence of parsed commands.
pub open spec fn cmds_model(s: Seq<Command>) -> Seq<CmdModel>
    decreases s,
{
    if s.len() == 0 {
        Seq::empty()
    } else {
        seq![cmd_model(s[0])] + cmds_model(s.drop_first())
    }
}

pub proof fn lemma_cmds_model_push(s: Seq<Command>, c: Command)
    ensures
        cmds_model(s.push(c)) == cmds_model(s).push(cmd_model(c)),
    decreases s,
{
    if s.len() == 0 {
        assert(s.push(c).drop_first() =~= Seq::<Command>::empty());
        assert(s.push(c)[0] == c);
        assert(cmds_model(Seq::<Command>::empty()) == Seq::<CmdModel>::empty());
        assert(cmds_model(s.push(c)) == seq![cmd_model(c)] + Seq::<CmdModel>::empty());
        assert(cmds_model(s) == Seq::<CmdModel>::empty());
        assert(cmds_model(s.push(c)) =~= cmds_model(s).push(cmd_model(c)));
    } else {
        lemma_cmds_model_push(s.drop_first(), c);
        assert(s.push(c).drop_first() =~= s.drop_first().push(c));
        assert(cmds_model(s.push(c)) =~= cmds_model(s).push(cmd_model(c)));
    }
}

/// The line-oriented grammar's whitespace: space, tab, carriage return and
/// line feed.
pub open spec fn is_space(c: u8) -> bool {
    c == 32 || c == 9 || c == 13 || c == 10
}

/// The first position at or after `i` holding byte `c`.
pub open spec fn spec_find_byte(s: Seq<u8>, c: u8, i: int) -> Option<int>
    decreases s.len() - i,
{
    if i < 0 || i >= s.len() {
        None
    } else if s[i] == c {
        Some(i)
    } else {
        spec_find_byte(s, c, i + 1)
    }
}

pub proof fn lemma_find_byte_props(s: Seq<u8>, c: u8, i: int)
    requires
        0 <= i,
    ensures
        match spec_find_byte(s, c, i) {
            Some(j) => i <= j < s.len() && s[j] == c && (forall|k: int| i <= k < j ==> s[k] != c),
            None => forall|k: int| i <= k < s.len() ==> s[k] != c,
        },
    decreases s.len() - i,
{
    if i < s.len() && s[i] != c {
        lemma_find_byte_props(s, c, i + 1);
    }
}

/// The first position at or after `i` holding a whitespace byte.
pub open spec fn spec_find_space(s: Seq<u8>, i: int) -> Option<int>
    decreases s.len() - i,
{
    if i < 0 || i >= s.len() {
        None
    } else if is_space(s[i]) {
        Some(i)
    } else {
        spec_find_space(s, i + 1)
    }
}

pub proof fn lemma_find_space_props(s: Seq<u8>, i: int)
    requires
        0 <= i,
    ensures
        match spec_find_space(s, i) {
            Some(j) => i <= j < s.len() && is_space(s[j]) && (forall|k: int|
                i <= k < j ==> !is_space(s[k])),
            None => forall|k: int| i <= k < s.len() ==> !is_space(s[k]),
        },
    decreases s.len() - i,
{
    if i < s.len() && !is_space(s[i]) {
        lemma_find_space_props(s, i + 1);
    }
}

/// The input split at line feeds; the terminator is not part of any line.
pub open spec fn spec_lines_at(b: Seq<u8>, i: int) -> Seq<Seq<u8>>
    decreases b.len() - i,
{
    if i < 0 || i > b.len() {
        Seq::empty()
    } else {
        match spec_find_byte(b, 10, i) {
            Some(j) => {
                let nx = if j + 1 <= i {
                    i + 1
                } else if j + 1 > b.len() {
                    b.len() as int
                } else {
                    j + 1
                };
                seq![b.subrange(i, if i <= j <= b.len() { j } else { i })] + spec_lines_at(b, nx)
            },
            None => seq![b.subrange(i, b.len() as int)],
        }
    }
}

/// The lines of a script: the byte text split at line feeds.
pub open spec fn spec_lines(b: Seq<u8>) -> Seq<Seq<u8>> {
    spec_lines_at(b, 0)
}

/// The line with leading whitespace removed.
pub open spec fn trim_front(l: Seq<u8>) -> Seq<u8>
    decreases l.len(),
{
    if l.len() > 0 && is_space(l[0]) {
        trim_front(l.drop_first())
    } else {
        l
    }
}

/// The line with trailing whitespace removed.
pub open spec fn trim_back(l: Seq<u8>) -> Seq<u8>
    decreases l.len(),
{
    if l.len() > 0 && is_space(l[l.len() - 1]) {
        trim_back(l.take(l.len() - 1))
    } else {
        l
    }
}

/// The line with whitespace removed from both ends.
pub open spec fn spec_trim(l: Seq<u8>) -> Seq<u8> {
    trim_back(trim_front(l))
}

/// The maximal whitespace-free tokens of a line, from position `i` on.
pub open spec fn spec_tokens_at(l: Seq<u8>, i: int) -> Seq<Seq<u8>>
    decreases l.len() - i,
{
    if i < 0 || i >= l.len() {
        Seq::empty()
    } else if is_space(l[i]) {
        spec_tokens_at(l, i + 1)
    } else {
        match spec_find_space(l, i) {
            Some(j) => {
                let nx = if j <= i {
                    i + 1
                } else if j > l.len() {
                    l.len() as int
                } else {
                    j
                };
                seq![l.subrange(i, if i <= j <= l.len() { j } else { i })] + spec_tokens_at(l, nx)
            },
            None => seq![l.subrange(i, l.len() as int)],
        }
    }
}

/// The whitespace-separated tokens of a line.
pub open spec fn spec_tokens(l: Seq<u8>) -> Seq<Seq<u8>> {
    spec_tokens_at(l, 0)
}

/// The byte sequences a vector of byte vectors holds.
pub open spec fn byte_seqs(v: Seq<Vec<u8>>) -> Seq<Seq<u8>> {
    Seq::new(v.len(), |i: int| v[i]@)
}

/// The value of a hexadecimal digit.
pub open spec fn hex_digit(c: u8) -> Option<u64> {
    if 48 <= c <= 57 {
        Some((c - 48) as u64)
    } else if 97 <= c <= 102 {
        Some((c - 87) as u64)
    } else if 65 <= c <= 70 {
        Some((c - 55) as u64)
    } else {
        None
    }
}

/// The value of the hexadecimal digits of `t` from position `i` on, folded
/// onto `acc`; `None` on a non-digit or when the value exceeds `u64`.
pub open spec fn spec_hex_at(t: Seq<u8>, i: int, acc: u64) -> Option<u64>
    decreases t.len() - i,
{
    if i < 0 || i >= t.len() {
        Some(acc)
    } else {
        match hex_digit(t[i]) {
            None => None,
            Some(d) => if acc > (0xFFFF_FFFF_FFFF_FFFFu64 - d) / 16 {
                None
            } else {
                spec_hex_at(t, i + 1, (acc * 16 + d) as u64)
            },
        }
    }
}

/// The value of a hexadecimal token: at least one digit, all digits, and the
/// value fits in a `u64`.
pub open spec fn spec_hex(t: Seq<u8>) -> Option<u64> {
    if t.len() == 0 {
        None
    } else {
        spec_hex_at(t, 0, 0)
    }
}

/// The linear address a token denotes: a bare hexadecimal value, or
/// `segment:offset` resolving to `segment * 16 + offset`.
pub open spec fn spec_parse_addr(t: Seq<u8>) -> Option<u64> {
    match spec_find_byte(t, 58, 0) {
        Some(j) => {
            let seg = spec_hex(t.subrange(0, if 0 <= j <= t.len() { j } else { 0 }));
            let off = spec_hex(
                t.subrange(if 0 <= j + 1 <= t.len() { j + 1 } else { 0 }, t.len() as int),
            );
            match (seg, off) {
                (Some(s), Some(o)) => if s > (0xFFFF_FFFF_FFFF_FFFFu64 - o) / 16 {
                    None
                } else {
                    Some((s * 16 + o) as u64)
                },
                _ => None,
            }
        },
        None => spec_hex(t),
    }
}

/// Compare two byte slices.
fn eq_bytes(a: &[u8], b: &[u8]) -> (r: bool)
    ensures
        r == (a@ == b@),
{
    if a.len() != b.len() {
        return false;
    }
    let mut i: usize = 0;
    while i < a.len()
        invariant
            i <= a@.len(),
            a@.len() == b@.len(),
            forall|j: int| 0 <= j < i ==> a@[j] == b@[j],
        decreases a@.len() - i,
    {
        if a[i] != b[i] {
            return false;
        }
        i = i + 1;
    }
    proof {
        assert(a@ =~= b@);
    }
    true
}

/// Find the first occurrence of a byte, at or after `from`.
fn find_byte(s: &[u8], c: u8, from: usize) -> (r: Option<usize>)
    ensures
        match r {
            Some(j) => spec_find_byte(s@, c, from as int) == Some(j as int),
            None => spec_find_byte(s@, c, from as int) is None,
        },
{
    let mut i: usize = from;
    while i < s.len()
        invariant
            from <= i,
            spec_find_byte(s@, c, from as int) == spec_find_byte(s@, c, i as int),
        decreases s@.len() - i,
    {
        if s[i] == c {
            return Some(i);
        }
        i = i + 1;
    }
    None
}

/// Find the first whitespace byte, at or after `from`.
fn find_space(s: &[u8], from: usize) -> (r: Option<usize>)
    ensures
        match r {
            Some(j) => spec_find_space(s@, from as int) == Some(j as int),
            None => spec_find_space(s@, from as int) is None,
        },
{
    let mut i: usize = from;
    while i < s.len()
        invariant
            from <= i,
            spec_find_space(s@, from as int) == spec_find_space(s@, i as int),
        decreases s@.len() - i,
    {
        if s[i] == 32 || s[i] == 9 || s[i] == 13 || s[i] == 10 {
            return Some(i);
        }
        i = i + 1;
    }
    None
}

/// Copy the byte range `i..j` out of a slice.
fn copy_range(s: &[u8], i: usize, j: usize) -> (out: Vec<u8>)
    requires
        i <= j <= s@.len(),
    ensures
        out@ == s@.subrange(i as int, j as int),
{
    let mut out: Vec<u8> = Vec::new();
    let mut k: usize = i;
    while k < j
        invariant
            i <= k <= j <= s@.len(),
            out@.len() == k - i,
            forall|m: int| 0 <= m < out@.len() ==> out@[m] == s@[i + m],
        decreases j - k,
    {
        out.push(s[k]);
        k = k + 1;
    }
    proof {
        assert(out@ =~= s@.subrange(i as int, j as int));
    }
    out
}

/// Remove whitespace from both ends of a line.
fn trim(line: &[u8]) -> (t: Vec<u8>)
    ensures
        t@ == spec_trim(line@),
{
    let n = line.len();
    proof {
        assert(line@.subrange(0, n as int) =~= line@);
    }
    let mut s: usize = 0;
    while s < n && (line[s] == 32 || line[s] == 9 || line[s] == 13 || line[s] == 10)
        invariant
            s <= n,
            n == line@.len(),
            trim_front(line@) == trim_front(line@.subrange(s as int, n as int)),
        decreases n - s,
    {
        proof {
            assert(line@.subrange(s as int, n as int).drop_first() =~= line@.subrange(
                s as int + 1,
                n as int,
            ));
        }
        s = s + 1;
    }
    proof {
        assert(trim_front(line@) == line@.subrange(s as int, n as int));
    }
    let mut e: usize = n;
    while e > s && (line[e - 1] == 32 || line[e - 1] == 9 || line[e - 1] == 13 || line[e - 1] == 10)
        invariant
            s <= e <= n,
            n == line@.len(),
            trim_back(line@.subrange(s as int, n as int)) == trim_back(
                line@.subrange(s as int, e as int),
            ),
        decreases e,
    {
        proof {
            let cur = line@.subrange(s as int, e as int);
            assert(cur.take(cur.len() - 1) =~= line@.subrange(s as int, e as int - 1));
        }
        e = e - 1;
    }
    proof {
        assert(trim_back(line@.subrange(s as int, n as int)) == line@.subrange(
            s as int,
            e as int,
        ));
    }
    copy_range(line, s, e)
}

/// Split a script into its lines; the line feed is not part of any line.
fn split_lines(b: &[u8]) -> (v: Vec<Vec<u8>>)
    ensures
        byte_seqs(v@) == spec_lines(b@),
{
    let mut out: Vec<Vec<u8>> = Vec::new();
    let mut i: usize = 0;
    let n = b.len();
    loop
        invariant
            i <= n,
            n == b@.len(),
            spec_lines(b@) == byte_seqs(out@) + spec_lines_at(b@, i as int),
        decreases n - i,
    {
        match find_byte(b, 10, i) {
            Some(j) => {
                proof {
                    lemma_find_byte_props(b@, 10, i as int);
                }
                let line = copy_range(b, i, j);
                proof {
                    let ghost prev = out@;
                    assert(byte_seqs(prev.push(line)) =~= byte_seqs(prev).push(line@));
                }
                out.push(line);
                proof {
                    assert(byte_seqs(out@) + spec_lines_at(b@, j as int + 1) =~= spec_lines(b@));
                }
                i = j + 1;
            },
            None => {
                let line = copy_range(b, i, n);
                proof {
                    let ghost prev = out@;
                    assert(byte_seqs(prev.push(line)) =~= byte_seqs(prev).push(line@));
                }
                out.push(line);
                proof {
                    assert(byte_seqs(out@) =~= spec_lines(b@));
                }
                return out;
            },
        }
    }
}

/// Split a line into its whitespace-separated tokens.
fn tokens(line: &[u8]) -> (v: Vec<Vec<u8>>)
    ensures
        byte_seqs(v@) == spec_tokens(line@),
{
    let mut out: Vec<Vec<u8>> = Vec::new();
    let mut i: usize = 0;
    let n = line.len();
    while i < n
        invariant
            i <= n,
            n == line@.len(),
            spec_tokens(line@) == byte_seqs(out@) + spec_tokens_at(line@, i as int),
        decreases n - i,
    {
        if line[i] == 32 || line[i] == 9 || line[i] == 13 || line[i] == 10 {
            i = i + 1;
        } else {
            let j = match find_space(line, i) {
                Some(j) => {
                    proof {
                        lemma_find_space_props(line@, i as int);
                    }
                    j
                },
                None => n,
            };
            let tok = copy_range(line, i, j);
            proof {
                let ghost prev = out@;
                assert(byte_seqs(prev.push(tok)) =~= byte_seqs(prev).push(tok@));
            }
            out.push(tok);
            proof {
                assert(byte_seqs(out@) + spec_tokens_at(line@, j as int) =~= spec_tokens(line@));
            }
            i = j;
        }
    }
    proof {
        assert(byte_seqs(out@) =~= spec_tokens(line@));
    }
    out
}

/// Parse a hexadecimal token.
fn parse_hex(t: &[u8]) -> (r: Option<u64>)
    ensures
        r == spec_hex(t@),
{
    if t.len() == 0 {
        return None;
    }
    let mut acc: u64 = 0;
    let mut i: usize = 0;
    while i < t.len()
        invariant
            i <= t@.len(),
            spec_hex(t@) == spec_hex_at(t@, i as int, acc),
        decreases t@.len() - i,
    {
        let c = t[i];
        let d: u64 = if 48 <= c && c <= 57 {
            (c - 48) as u64
        } else if 97 <= c && c <= 102 {
            (c - 87) as u64
        } else if 65 <= c && c <= 70 {
            (c - 55) as u64
        } else {
            return None;
        };
        if acc > (0xFFFF_FFFF_FFFF_FFFFu64 - d) / 16 {
            return None;
        }
        acc = acc * 16 + d;
        i = i + 1;
    }
    Some(acc)
}

} // verus!

verus! {

/// The classification of one script line: ignored, a block terminator, a
/// simple command, the head of a loop block, or an error.
pub enum LineClass {
    Blank,
    BlockEnd,
    Simple(CmdModel),
    WhileHead(u64),
    Bad(ParseErrorKind),
}

/// What a print command's argument token denotes: a hexadecimal address, or
/// a pair of register names joined by a colon.
pub open spec fn spec_target(tok: Seq<u8>) -> Option<PrintTarget> {
    match spec_parse_addr(tok) {
        Some(a) => Some(PrintTarget::Linear(a)),
        None => match spec_find_byte(tok, 58, 0) {
            Some(j) => {
                let left = tok.subrange(0, if 0 <= j <= tok.len() { j } else { 0 });
                let right = tok.subrange(
                    if 0 <= j + 1 <= tok.len() { j + 1 } else { 0 },
                    tok.len() as int,
                );
                match (spec_reg_of(left), spec_reg_of(right)) {
                    (Some(r1), Some(r2)) => Some(PrintTarget::Registers(r1, r2)),
                    _ => None,
                }
            },
            None => None,
        },
    }
}

/// Classify one line of script text. Lines are trimmed first; blank lines
/// and `#` comments are ignored.
pub open spec fn spec_classify(line: Seq<u8>) -> LineClass {
    let t = spec_trim(line);
    let toks = spec_tokens(t);
    if t.len() == 0 || t[0] == ('#' as u8) {
        LineClass::Blank
    } else if t == seq![('}' as u8)] {
        LineClass::BlockEnd
    } else if t == seq![('q' as u8)] || t == seq![
        ('q' as u8),
        ('u' as u8),
        ('i' as u8),
        ('t' as u8),
    ] || t == seq![('e' as u8), ('x' as u8), ('i' as u8), ('t' as u8)] {
        LineClass::Simple(CmdModel::Quit)
    } else if t == seq![('p' as u8)] || t == seq![
        ('p' as u8),
        ('r' as u8),
        ('i' as u8),
        ('n' as u8),
        ('t' as u8),
    ] {
        LineClass::Simple(CmdModel::Print(None))
    } else if toks.len() >= 2 && (toks[0] == seq![('p' as u8)] || toks[0] == seq![
        ('p' as u8),
        ('r' as u8),
        ('i' as u8),
        ('n' as u8),
        ('t' as u8),
    ]) {
        match spec_target(toks[1]) {
            Some(tg) => LineClass::Simple(CmdModel::Print(Some(tg))),
            None => LineClass::Bad(ParseErrorKind::BadAddress),
        }
    } else if t == seq![('r' as u8)] || t == seq![('r' as u8), ('u' as u8), ('n' as u8)] {
        LineClass::Simple(CmdModel::Run)
    } else if t == seq![('n' as u8)] || t == seq![
        ('n' as u8),
        ('e' as u8),
        ('x' as u8),
        ('t' as u8),
    ] {
        LineClass::Simple(CmdModel::Step)
    } else if t == seq![('c' as u8)] || t == seq![
        ('c' as u8),
        ('o' as u8),
        ('n' as u8),
        ('t' as u8),
        ('i' as u8),
        ('n' as u8),
        ('u' as u8),
        ('e' as u8),
    ] {
        LineClass::Simple(CmdModel::Continue)
    } else if t == seq![('l' as u8), ('o' as u8), ('g' as u8), ('o' as u8), ('n' as u8)] {
        LineClass::Simple(CmdModel::SetVerbose(true))
    } else if t == seq![
        ('l' as u8),
        ('o' as u8),
        ('g' as u8),
        ('o' as u8),
        ('f' as u8),
        ('f' as u8),
    ] {
        LineClass::Simple(CmdModel::SetVerbose(false))
    } else if toks.len() >= 2 && (toks[0] == seq![('b' as u8)] || toks[0] == seq![
        ('b' as u8),
        ('r' as u8),
        ('e' as u8),
        ('a' as u8),
        ('k' as u8),
    ]) {
        match spec_parse_addr(toks[1]) {
            Some(a) => LineClass::Simple(CmdModel::SetBreak(a)),
            None => LineClass::Bad(ParseErrorKind::BadAddress),
        }
    } else if toks.len() >= 1 && toks[0] == seq![
        ('w' as u8),
        ('h' as u8),
        ('i' as u8),
        ('l' as u8),
        ('e' as u8),
    ] {
        if toks.len() < 4 {
            LineClass::Bad(ParseErrorKind::BadWhile)
        } else if toks[1] != seq![('b' as u8), ('r' as u8), ('e' as u8), ('a' as u8), ('k' as u8)] {
            LineClass::Bad(ParseErrorKind::BadWhile)
        } else {
            match spec_parse_addr(toks[2]) {
                None => LineClass::Bad(ParseErrorKind::BadAddress),
                Some(a) => if toks[3] == seq![('{' as u8)] {
                    LineClass::WhileHead(a)
                } else {
                    LineClass::Bad(ParseErrorKind::BadWhile)
                },
            }
        }
    } else {
        LineClass::Bad(ParseErrorKind::UnknownCommand)
    }
}

} // verus!

verus! {

/// The classification a parser step materializes: an ignored line, a block
/// terminator, a simple command, a loop-block head with its target address,
/// or an error.
pub enum LineForm {
    Blank,
    BlockEnd,
    Simple(Command),
    WhileHead(u64),
    Bad(ParseErrorKind),
}

/// The model of an exec line classification.
pub open spec fn form_model(f: LineForm) -> LineClass {
    match f {
        LineForm::Blank => LineClass::Blank,
        LineForm::BlockEnd => LineClass::BlockEnd,
        LineForm::Simple(c) => LineClass::Simple(cmd_model(c)),
        LineForm::WhileHead(a) => LineClass::WhileHead(a),
        LineForm::Bad(k) => LineClass::Bad(k),
    }
}

/// The target address of a loop-block head.
pub open spec fn while_head_addr(c: LineClass) -> u64 {
    match c {
        LineClass::WhileHead(a) => a,
        _ => 0,
    }
}

/// Parse a print command's argument token.
fn parse_target(tok: &[u8]) -> (r: Option<PrintTarget>)
    ensures
        r == spec_target(tok@),
{
    match Ast::parse_addr(tok) {
        Some(a) => Some(PrintTarget::Linear(a)),
        None => match find_byte(tok, 58, 0) {
            Some(j) => {
                proof {
                    lemma_find_byte_props(tok@, 58, 0);
                }
                let n = tok.len();
                let left = copy_range(tok, 0, j);
                let right = copy_range(tok, j + 1, n);
                match (reg_of_bytes(left.as_slice()), reg_of_bytes(right.as_slice())) {
                    (Some(r1), Some(r2)) => Some(PrintTarget::Registers(r1, r2)),
                    _ => None,
                }
            },
            None => None,
        },
    }
}

/// Classify one line of script text.
fn classify_line(line: &[u8]) -> (r: LineForm)
    ensures
        form_model(r) == spec_classify(line@),
{
    let t = trim(line);
    let ts = t.as_slice();
    if ts.len() == 0 {
        return LineForm::Blank;
    }
    if ts[0] == ('#' as u8) {
        return LineForm::Blank;
    }
    let kw_close: [u8; 1] = [('}' as u8)];
    let kw_q: [u8; 1] = [('q' as u8)];
    let kw_quit: [u8; 4] = [('q' as u8), ('u' as u8), ('i' as u8), ('t' as u8)];
    let kw_exit: [u8; 4] = [('e' as u8), ('x' as u8), ('i' as u8), ('t' as u8)];
    let kw_p: [u8; 1] = [('p' as u8)];
    let kw_print: [u8; 5] = [('p' as u8), ('r' as u8), ('i' as u8), ('n' as u8), ('t' as u8)];
    let kw_r: [u8; 1] = [('r' as u8)];
    let kw_run: [u8; 3] = [('r' as u8), ('u' as u8), ('n' as u8)];
    let kw_n: [u8; 1] = [('n' as u8)];
    let kw_next: [u8; 4] = [('n' as u8), ('e' as u8), ('x' as u8), ('t' as u8)];
    let kw_c: [u8; 1] = [('c' as u8)];
    let kw_continue: [u8; 8] = [
        ('c' as u8),
        ('o' as u8),
        ('n' as u8),
        ('t' as u8),
        ('i' as u8),
        ('n' as u8),
        ('u' as u8),
        ('e' as u8),
    ];
    let kw_logon: [u8; 5] = [('l' as u8), ('o' as u8), ('g' as u8), ('o' as u8), ('n' as u8)];
    let kw_logoff: [u8; 6] = [
        ('l' as u8),
        ('o' as u8),
        ('g' as u8),
        ('o' as u8),
        ('f' as u8),
        ('f' as u8),
    ];
    let kw_b: [u8; 1] = [('b' as u8)];
    let kw_break: [u8; 5] = [('b' as u8), ('r' as u8), ('e' as u8), ('a' as u8), ('k' as u8)];
    let kw_while: [u8; 5] = [('w' as u8), ('h' as u8), ('i' as u8), ('l' as u8), ('e' as u8)];
    let kw_open: [u8; 1] = [('{' as u8)];
    proof {
        assert(kw_close@ =~= seq![('}' as u8)]);
        assert(kw_q@ =~= seq![('q' as u8)]);
        assert(kw_quit@ =~= seq![('q' as u8), ('u' as u8), ('i' as u8), ('t' as u8)]);
        assert(kw_exit@ =~= seq![('e' as u8), ('x' as u8), ('i' as u8), ('t' as u8)]);
        assert(kw_p@ =~= seq![('p' as u8)]);
        assert(kw_print@ =~= seq![('p' as u8), ('r' as u8), ('i' as u8), ('n' as u8), ('t' as u8)]);
        assert(kw_r@ =~= seq![('r' as u8)]);
        assert(kw_run@ =~= seq![('r' as u8), ('u' as u8), ('n' as u8)]);
        assert(kw_n@ =~= seq![('n' as u8)]);
        assert(kw_next@ =~= seq![('n' as u8), ('e' as u8), ('x' as u8), ('t' as u8)]);
        assert(kw_c@ =~= seq![('c' as u8)]);
        assert(kw_continue@ =~= seq![
            ('c' as u8),
            ('o' as u8),
            ('n' as u8),
            ('t' as u8),
            ('i' as u8),
            ('n' as u8),
            ('u' as u8),
            ('e' as u8),
        ]);
        assert(kw_logon@ =~= seq![('l' as u8), ('o' as u8), ('g' as u8), ('o' as u8), ('n' as u8)]);
        assert(kw_logoff@ =~= seq![
            ('l' as u8),
            ('o' as u8),
            ('g' as u8),
            ('o' as u8),
            ('f' as u8),
            ('f' as u8),
        ]);
        assert(kw_b@ =~= seq![('b' as u8)]);
        assert(kw_break@ =~= seq![('b' as u8), ('r' as u8), ('e' as u8), ('a' as u8), ('k' as u8)]);
        assert(kw_while@ =~= seq![('w' as u8), ('h' as u8), ('i' as u8), ('l' as u8), ('e' as u8)]);
        assert(kw_open@ =~= seq![('{' as u8)]);
    }
    if eq_bytes(ts, kw_close.as_slice()) {
        return LineForm::BlockEnd;
    }
    if eq_bytes(ts, kw_q.as_slice()) || eq_bytes(ts, kw_quit.as_slice()) || eq_bytes(
        ts,
        kw_exit.as_slice(),
    ) {
        return LineForm::Simple(Command::Quit);
    }
    if eq_bytes(ts, kw_p.as_slice()) || eq_bytes(ts, kw_print.as_slice()) {
        return LineForm::Simple(Command::Print(None));
    }
    let toks = tokens(ts);
    if toks.len() >= 2 && (eq_bytes(toks[0].as_slice(), kw_p.as_slice()) || eq_bytes(
        toks[0].as_slice(),
        kw_print.as_slice(),
    )) {
        return match parse_target(toks[1].as_slice()) {
            Some(tg) => LineForm::Simple(Command::Print(Some(tg))),
            None => LineForm::Bad(ParseErrorKind::BadAddress),
        };
    }
    if eq_bytes(ts, kw_r.as_slice()) || eq_bytes(ts, kw_run.as_slice()) {
        return LineForm::Simple(Command::Run);
    }
    if eq_bytes(ts, kw_n.as_slice()) || eq_bytes(ts, kw_next.as_slice()) {
        return LineForm::Simple(Command::Step);
    }
    if eq_bytes(ts, kw_c.as_slice()) || eq_bytes(ts, kw_continue.as_slice()) {
        return LineForm::Simple(Command::Continue);
    }
    if eq_bytes(ts, kw_logon.as_slice()) {
        return LineForm::Simple(Command::SetVerbose(true));
    }
    if eq_bytes(ts, kw_logoff.as_slice()) {
        return LineForm::Simple(Command::SetVerbose(false));
    }
    if toks.len() >= 2 && (eq_bytes(toks[0].as_slice(), kw_b.as_slice()) || eq_bytes(
        toks[0].as_slice(),
        kw_break.as_slice(),
    )) {
        return match Ast::parse_addr(toks[1].as_slice()) {
            Some(a) => LineForm::Simple(Command::SetBreak(a)),
            None => LineForm::Bad(ParseErrorKind::BadAddress),
        };
    }
    if toks.len() >= 1 && eq_bytes(toks[0].as_slice(), kw_while.as_slice()) {
        if toks.len() < 4 {
            return LineForm::Bad(ParseErrorKind::BadWhile);
        }
        if !eq_bytes(toks[1].as_slice(), kw_break.as_slice()) {
            return LineForm::Bad(ParseErrorKind::BadWhile);
        }
        return match Ast::parse_addr(toks[2].as_slice()) {
            None => LineForm::Bad(ParseErrorKind::BadAddress),
            Some(a) => if eq_bytes(toks[3].as_slice(), kw_open.as_slice()) {
                LineForm::WhileHead(a)
            } else {
                LineForm::Bad(ParseErrorKind::BadWhile)
            },
        };
    }
    LineForm::Bad(ParseErrorKind::UnknownCommand)
}

} // verus!

verus! {

/// A parse step's yield: an ignored line, the end of the enclosing block, or
/// one parsed command.
pub enum ParseVal {
    Comment,
    BlockEnd,
    Command(Command),
}

/// Parse the command sequence starting at line `idx`. Inside a block
/// (`in_block`), a lone `}` ends the sequence; reaching the end of input
/// first is a block-termination error reported against header line `bline`.
/// At the top level the input may simply end.
pub open spec fn spec_parse_cmds(
    lines: Seq<Seq<u8>>,
    idx: int,
    in_block: bool,
    bline: int,
) -> Result<(Seq<CmdModel>, int), ParseError>
    decreases lines.len() - idx,
{
    if idx < 0 || idx >= lines.len() {
        if in_block {
            Err(ParseError { line: bline as usize, kind: ParseErrorKind::UnterminatedBlock })
        } else {
            Ok((Seq::empty(), idx))
        }
    } else {
        match spec_classify(lines[idx]) {
            LineClass::Blank => spec_parse_cmds(lines, idx + 1, in_block, bline),
            LineClass::BlockEnd => if in_block {
                Ok((Seq::empty(), idx + 1))
            } else {
                Err(ParseError { line: (idx + 1) as usize, kind: ParseErrorKind::UnknownCommand })
            },
            LineClass::Simple(c) => match spec_parse_cmds(lines, idx + 1, in_block, bline) {
                Ok((rest, nx)) => Ok((seq![c] + rest, nx)),
                Err(e) => Err(e),
            },
            LineClass::WhileHead(a) => match spec_parse_cmds(lines, idx + 1, true, idx + 1) {
                Ok((body, after)) => {
                    let nx0 = if after <= idx + 1 {
                        idx + 2
                    } else {
                        after
                    };
                    let nx = if nx0 > lines.len() {
                        lines.len() as int
                    } else {
                        nx0
                    };
                    match spec_parse_cmds(lines, nx, in_block, bline) {
                        Ok((rest, fin)) => Ok(
                            (seq![CmdModel::LoopUntilBreak { addr: a, body }] + rest, fin),
                        ),
                        Err(e) => Err(e),
                    }
                },
                Err(e) => Err(e),
            },
            LineClass::Bad(k) => Err(ParseError { line: (idx + 1) as usize, kind: k }),
        }
    }
}

/// A successful parse never moves backwards and never runs past the input;
/// inside a block it consumes at least the closing line.
pub proof fn lemma_parse_progress(lines: Seq<Seq<u8>>, idx: int, in_block: bool, bline: int)
    requires
        0 <= idx <= lines.len(),
    ensures
        match spec_parse_cmds(lines, idx, in_block, bline) {
            Ok((cmds, nx)) => idx <= nx <= lines.len() && (in_block ==> idx < nx),
            Err(_) => true,
        },
    decreases lines.len() - idx,
{
    if idx < lines.len() {
        match spec_classify(lines[idx]) {
            LineClass::Blank => {
                lemma_parse_progress(lines, idx + 1, in_block, bline);
            },
            LineClass::Simple(_) => {
                lemma_parse_progress(lines, idx + 1, in_block, bline);
            },
            LineClass::WhileHead(_) => {
                lemma_parse_progress(lines, idx + 1, true, idx + 1);
                match spec_parse_cmds(lines, idx + 1, true, idx + 1) {
                    Ok((body, after)) => {
                        let nx0 = if after <= idx + 1 {
                            idx + 2
                        } else {
                            after
                        };
                        let nx = if nx0 > lines.len() {
                            lines.len() as int
                        } else {
                            nx0
                        };
                        lemma_parse_progress(lines, nx, in_block, bline);
                    },
                    Err(_) => {},
                }
            },
            _ => {},
        }
    }
}

/// A whole script's parse: the command sequence, or the first failure.
pub open spec fn spec_parse_script(b: Seq<u8>) -> Result<Seq<CmdModel>, ParseError> {
    match spec_parse_cmds(spec_lines(b), 0, false, 0) {
        Ok((cmds, nx)) => Ok(cmds),
        Err(e) => Err(e),
    }
}

/// One parsed step starting at `idx` yielded command model `c` and continued
/// at `nx`: whatever the rest of the sequence parses to, the sequence at
/// `idx` parses to `c` followed by it.
pub open spec fn parse_step_ok(
    lines: Seq<Seq<u8>>,
    idx: int,
    nx: int,
    in_block: bool,
    bline: int,
    c: CmdModel,
) -> bool {
    match spec_parse_cmds(lines, nx, in_block, bline) {
        Ok((rest, fin)) => spec_parse_cmds(lines, idx, in_block, bline) == Ok::<
            (Seq<CmdModel>, int),
            ParseError,
        >((seq![c] + rest, fin)),
        Err(e) => spec_parse_cmds(lines, idx, in_block, bline) == Err::<
            (Seq<CmdModel>, int),
            ParseError,
        >(e),
    }
}

/// A parsed script: the ordered command sequence.
#[derive(Debug)]
pub struct Ast {
    pub commands: Vec<Command>,
}

impl Ast {
    /// Parse an address token: a bare hexadecimal linear address, or
    /// `segment:offset` resolving to `segment * 16 + offset`.
    pub fn parse_addr(t: &[u8]) -> (r: Option<u64>)
        ensures
            r == spec_parse_addr(t@),
    {
        match find_byte(t, 58, 0) {
            Some(j) => {
                proof {
                    lemma_find_byte_props(t@, 58, 0);
                }
                let n = t.len();
                let left = copy_range(t, 0, j);
                let right = copy_range(t, j + 1, n);
                let seg = match parse_hex(left.as_slice()) {
                    Some(s) => s,
                    None => {
                        return None;
                    },
                };
                let off = match parse_hex(right.as_slice()) {
                    Some(o) => o,
                    None => {
                        return None;
                    },
                };
                if seg > (0xFFFF_FFFF_FFFF_FFFFu64 - off) / 16 {
                    None
                } else {
                    Some(seg * 16 + off)
                }
            },
            None => parse_hex(t),
        }
    }

    /// Parse one line of the script: the next command, an ignored line, the
    /// end of the enclosing block, or the end of input.
    pub fn parse_command(lines: &Vec<Vec<u8>>, idx: usize, in_block: bool) -> (r: Result<
        Option<(ParseVal, usize)>,
        ParseError,
    >)
        requires
            idx <= lines@.len(),
        ensures
            match r {
                Ok(None) => idx >= lines@.len(),
                Ok(Some((ParseVal::Comment, nx))) => idx < lines@.len() && nx == idx + 1
                    && spec_classify(byte_seqs(lines@)[idx as int]) is Blank,
                Ok(Some((ParseVal::BlockEnd, nx))) => in_block && idx < lines@.len() && nx == idx
                    + 1 && spec_classify(byte_seqs(lines@)[idx as int]) is BlockEnd,
                Ok(Some((ParseVal::Command(c), nx))) => idx < nx <= lines@.len() && (forall|
                    bl: int,
                |
                    #[trigger] parse_step_ok(
                        byte_seqs(lines@),
                        idx as int,
                        nx as int,
                        in_block,
                        bl,
                        cmd_model(c),
                    )),
                Err(e) => forall|bl: int|
                    #[trigger] spec_parse_cmds(byte_seqs(lines@), idx as int, in_block, bl)
                        == Err::<(Seq<CmdModel>, int), ParseError>(e),
            },
        decreases lines@.len() - idx, 1int,
    {
        let ghost lv = byte_seqs(lines@);
        if idx >= lines.len() {
            return Ok(None);
        }
        let form = classify_line(lines[idx].as_slice());
        proof {
            assert(lv[idx as int] == lines@[idx as int]@);
        }
        match form {
            LineForm::Blank => Ok(Some((ParseVal::Comment, idx + 1))),
            LineForm::BlockEnd => {
                if in_block {
                    Ok(Some((ParseVal::BlockEnd, idx + 1)))
                } else {
                    Err(ParseError { line: idx + 1, kind: ParseErrorKind::UnknownCommand })
                }
            },
            LineForm::Simple(c) => {
                proof {
                    assert forall|bl: int|
                        #[trigger] parse_step_ok(lv, idx as int, idx + 1, in_block, bl, cmd_model(c)) by {
                        let inner = spec_parse_cmds(lv, idx + 1, in_block, bl);
                        assert(spec_parse_cmds(lv, idx as int, in_block, bl) == (match inner {
                            Ok((rest, nx)) => Ok::<(Seq<CmdModel>, int), ParseError>(
                                (seq![cmd_model(c)] + rest, nx),
                            ),
                            Err(e) => Err(e),
                        }));
                    }
                }
                Ok(Some((ParseVal::Command(c), idx + 1)))
            },
            LineForm::WhileHead(a) => {
                match Self::parse_while(lines, idx) {
                    Ok((c, nx)) => {
                        proof {
                            lemma_parse_progress(lv, idx as int + 1, true, idx as int + 1);
                            assert forall|bl: int|
                                #[trigger] parse_step_ok(lv, idx as int, nx as int, in_block, bl, cmd_model(c))
                            by {
                                let body_r = spec_parse_cmds(lv, idx as int + 1, true, idx as int + 1);
                                assert(body_r is Ok);
                            }
                        }
                        Ok(Some((ParseVal::Command(c), nx)))
                    },
                    Err(e) => {
                        proof {
                            assert forall|bl: int|
                                #[trigger] spec_parse_cmds(lv, idx as int, in_block, bl) == Err::<
                                    (Seq<CmdModel>, int),
                                    ParseError,
                                >(e) by {
                                let body_r = spec_parse_cmds(lv, idx as int + 1, true, idx as int + 1);
                                assert(body_r == Err::<(Seq<CmdModel>, int), ParseError>(e));
                            }
                        }
                        Err(e)
                    },
                }
            },
            LineForm::Bad(k) => Err(ParseError { line: idx + 1, kind: k }),
        }
    }

    /// Parse a loop-until-breakpoint block whose header stands at line `idx`:
    /// collect body commands until the closing `}`. Reaching the end of the
    /// input first is a block-termination error, reported against the header
    /// line.
    #[verifier::rlimit(60)]
    pub fn parse_while(lines: &Vec<Vec<u8>>, idx: usize) -> (r: Result<(Command, usize), ParseError>)
        requires
            idx < lines@.len(),
            spec_classify(byte_seqs(lines@)[idx as int]) is WhileHead,
        ensures
            match r {
                Ok((c, nx)) => idx < nx <= lines@.len() && (match spec_parse_cmds(
                    byte_seqs(lines@),
                    idx as int + 1,
                    true,
                    idx as int + 1,
                ) {
                    Ok((body, after)) => nx == after && cmd_model(c)
                        == (CmdModel::LoopUntilBreak {
                        addr: while_head_addr(spec_classify(byte_seqs(lines@)[idx as int])),
                        body,
                    }),
                    Err(_) => false,
                }),
                Err(e) => spec_parse_cmds(byte_seqs(lines@), idx as int + 1, true, idx as int + 1)
                    == Err::<(Seq<CmdModel>, int), ParseError>(e),
            },
        decreases lines@.len() - idx, 0int,
    {
        let ghost lv = byte_seqs(lines@);
        let form = classify_line(lines[idx].as_slice());
        proof {
            assert(lv[idx as int] == lines@[idx as int]@);
        }
        let addr = match form {
            LineForm::WhileHead(a) => a,
            _ => {
                proof {
                    assert(false);
                }
                0
            },
        };
        let n = lines.len();
        let mut body: Vec<Command> = Vec::new();
        let mut j: usize = idx + 1;
        proof {
            assert(cmds_model(body@) == Seq::<CmdModel>::empty());
            match spec_parse_cmds(lv, idx as int + 1, true, idx as int + 1) {
                Ok((rest, after)) => {
                    assert(cmds_model(body@) + rest =~= rest);
                },
                Err(_) => {},
            }
        }
        loop
            invariant
                idx < lines@.len(),
                idx + 1 <= j <= lines@.len(),
                lv == byte_seqs(lines@),
                spec_classify(lv[idx as int]) == LineClass::WhileHead(addr),
                match spec_parse_cmds(lv, j as int, true, idx as int + 1) {
                    Ok((rest, after)) => spec_parse_cmds(lv, idx as int + 1, true, idx as int + 1)
                        == Ok::<(Seq<CmdModel>, int), ParseError>(
                        (cmds_model(body@) + rest, after),
                    ),
                    Err(e) => spec_parse_cmds(lv, idx as int + 1, true, idx as int + 1) == Err::<
                        (Seq<CmdModel>, int),
                        ParseError,
                    >(e),
                },
            decreases lines@.len() - j,
        {
            match Self::parse_command(lines, j, true) {
                Err(e) => {
                    return Err(e);
                },
                Ok(None) => {
                    return Err(
                        ParseError { line: idx + 1, kind: ParseErrorKind::UnterminatedBlock },
                    );
                },
                Ok(Some((ParseVal::Comment, nx))) => {
                    j = nx;
                },
                Ok(Some((ParseVal::BlockEnd, nx))) => {
                    proof {
                        assert(spec_parse_cmds(lv, j as int, true, idx as int + 1) == Ok::<
                            (Seq<CmdModel>, int),
                            ParseError,
                        >((Seq::empty(), j + 1)));
                        match spec_parse_cmds(lv, j as int, true, idx as int + 1) {
                            Ok((rest, after)) => {
                                assert(rest =~= Seq::<CmdModel>::empty());
                                assert(cmds_model(body@) + rest =~= cmds_model(body@));
                                assert(spec_parse_cmds(lv, idx as int + 1, true, idx as int + 1)
                                    == Ok::<(Seq<CmdModel>, int), ParseError>(
                                    (cmds_model(body@), nx as int),
                                ));
                            },
                            Err(_) => {
                                assert(false);
                            },
                        }
                        assert(spec_classify(lv[idx as int]) == LineClass::WhileHead(addr));
                        assert(while_head_addr(spec_classify(lv[idx as int])) == addr);
                    }
                    return Ok((Command::LoopUntilBreak { addr, body }, nx));
                },
                Ok(Some((ParseVal::Command(c), nx))) => {
                    proof {
                        assert(parse_step_ok(lv, j as int, nx as int, true, idx as int + 1, cmd_model(c)));
                        lemma_cmds_model_push(body@, c);
                        match spec_parse_cmds(lv, nx as int, true, idx as int + 1) {
                            Ok((rest, after)) => {
                                assert(cmds_model(body@) + (seq![cmd_model(c)] + rest)
                                    =~= cmds_model(body@.push(c)) + rest);
                            },
                            Err(_) => {},
                        }
                    }
                    body.push(c);
                    j = nx;
                },
            }
        }
    }

    /// Parse a whole script into its ordered command sequence.
    pub fn new(script: &str) -> (r: Result<Ast, ParseError>)
        ensures
            match r {
                Ok(ast) => spec_parse_script(script.spec_bytes()) == Ok::<
                    Seq<CmdModel>,
                    ParseError,
                >(cmds_model(ast.commands@)),
                Err(e) => spec_parse_script(script.spec_bytes()) == Err::<
                    Seq<CmdModel>,
                    ParseError,
                >(e),
            },
    {
        let bytes = script.as_bytes();
        let lines = split_lines(bytes);
        let ghost lv = byte_seqs(lines@);
        let mut commands: Vec<Command> = Vec::new();
        let mut idx: usize = 0;
        proof {
            assert(cmds_model(commands@) == Seq::<CmdModel>::empty());
            match spec_parse_cmds(lv, 0, false, 0) {
                Ok((rest, after)) => {
                    assert(cmds_model(commands@) + rest =~= rest);
                },
                Err(_) => {},
            }
        }
        loop
            invariant
                idx <= lines@.len(),
                lv == byte_seqs(lines@),
                lv == spec_lines(script.spec_bytes()),
                match spec_parse_cmds(lv, idx as int, false, 0) {
                    Ok((rest, after)) => spec_parse_cmds(lv, 0, false, 0) == Ok::<
                        (Seq<CmdModel>, int),
                        ParseError,
                    >((cmds_model(commands@) + rest, after)),
                    Err(e) => spec_parse_cmds(lv, 0, false, 0) == Err::<
                        (Seq<CmdModel>, int),
                        ParseError,
                    >(e),
                },
            decreases lines@.len() - idx,
        {
            match Self::parse_command(&lines, idx, false) {
                Err(e) => {
                    return Err(e);
                },
                Ok(None) => {
                    proof {
                        match spec_parse_cmds(lv, idx as int, false, 0) {
                            Ok((rest, after)) => {
                                assert(rest =~= Seq::<CmdModel>::empty());
                                assert(cmds_model(commands@) + rest =~= cmds_model(commands@));
                            },
                            Err(_) => {},
                        }
                    }
                    return Ok(Ast { commands });
                },
                Ok(Some((ParseVal::Comment, nx))) => {
                    idx = nx;
                },
                Ok(Some((ParseVal::BlockEnd, nx))) => {
                    proof {
                        assert(false);
                    }
                    idx = nx;
                },
                Ok(Some((ParseVal::Command(c), nx))) => {
                    proof {
                        assert(parse_step_ok(lv, idx as int, nx as int, false, 0, cmd_model(c)));
                        lemma_cmds_model_push(commands@, c);
                        match spec_parse_cmds(lv, nx as int, false, 0) {
                            Ok((rest, after)) => {
                                assert(cmds_model(commands@) + (seq![cmd_model(c)] + rest)
                                    =~= cmds_model(commands@.push(c)) + rest);
                            },
                            Err(_) => {},
                        }
                    }
                    commands.push(c);
                    idx = nx;
                },
            }
        }
    }
}

} // verus!
