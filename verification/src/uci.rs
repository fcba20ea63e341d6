//! The UCI front end: splitting a command line into tokens and parsing it
//! into a command.

use vstd::prelude::*;
use crate::text::{str_is, is_digit, digit_value};
use crate::fen::field_views;

verus! {

/// The characters with Unicode's `White_Space` property, which
/// `char::is_whitespace` and `str::split_whitespace` go by.
pub open spec fn is_ws(c: char) -> bool {
    c == '\t' || c == '\n' || c == '\u{0B}' || c == '\u{0C}' || c == '\r' || c == ' ' || c
        == '\u{85}' || c == '\u{A0}' || c == '\u{1680}' || ('\u{2000}' <= c && c <= '\u{200A}')
        || c == '\u{2028}' || c == '\u{2029}' || c == '\u{202F}' || c == '\u{205F}' || c
        == '\u{3000}'
}

/// After reading the first `n` characters of `s`: the tokens completed and
/// the token being read (empty between tokens).
pub open spec fn scan(s: Seq<char>, n: nat) -> (Seq<Seq<char>>, Seq<char>)
    decreases n,
{
    if n == 0 {
        (Seq::empty(), Seq::empty())
    } else {
        let (done, cur) = scan(s, (n - 1) as nat);
        let c = s[n - 1];
        if is_ws(c) {
            if cur.len() > 0 {
                (done.push(cur), Seq::empty())
            } else {
                (done, Seq::empty())
            }
        } else {
            (done, cur.push(c))
        }
    }
}

/// The maximal runs of characters that are not white space, in order.
pub open spec fn split_ws(s: Seq<char>) -> Seq<Seq<char>> {
    let (done, cur) = scan(s, s.len());
    if cur.len() > 0 {
        done.push(cur)
    } else {
        done
    }
}

/// The characters of `t` are none of them white space.
pub open spec fn no_ws(t: Seq<char>) -> bool {
    forall|j: int| 0 <= j < t.len() ==> !is_ws(#[trigger] t[j])
}

proof fn lemma_scan_tokens(s: Seq<char>, n: nat)
    requires
        n <= s.len(),
    ensures
        forall|i: int|
            0 <= i < scan(s, n).0.len() ==> #[trigger] scan(s, n).0[i].len() > 0 && no_ws(scan(s, n).0[i]),
        no_ws(scan(s, n).1),
    decreases n,
{
    if n > 0 {
        lemma_scan_tokens(s, (n - 1) as nat);
        let (done, cur) = scan(s, (n - 1) as nat);
        let c = s[n - 1];
        if !is_ws(c) {
            assert forall|j: int| 0 <= j < cur.push(c).len() implies !is_ws(#[trigger] cur.push(c)[j]) by {
                if j < cur.len() {
                    assert(cur.push(c)[j] == cur[j]);
                }
            }
        } else if cur.len() > 0 {
            assert forall|i: int| 0 <= i < done.push(cur).len() implies #[trigger] done.push(cur)[i].len() > 0
                && no_ws(done.push(cur)[i]) by {
                if i < done.len() {
                    assert(done.push(cur)[i] == done[i]);
                }
            }
        }
    }
}

/// The tokens of a line are not empty and hold no white space.
pub proof fn law_tokens_hold_no_white_space(s: Seq<char>)
    ensures
        forall|i: int| 0 <= i < split_ws(s).len() ==> #[trigger] split_ws(s)[i].len() > 0 && no_ws(split_ws(s)[i]),
{
    lemma_scan_tokens(s, s.len());
    let (done, cur) = scan(s, s.len());
    if cur.len() > 0 {
        assert forall|i: int| 0 <= i < done.push(cur).len() implies #[trigger] done.push(cur)[i].len() > 0
            && no_ws(done.push(cur)[i]) by {
            if i < done.len() {
                assert(done.push(cur)[i] == done[i]);
            }
        }
    }
}

fn is_whitespace(c: char) -> (r: bool)
    ensures
        r == is_ws(c),
{
    c == '\t' || c == '\n' || c == '\u{0B}' || c == '\u{0C}' || c == '\r' || c == ' ' || c
        == '\u{85}' || c == '\u{A0}' || c == '\u{1680}' || ('\u{2000}' <= c && c <= '\u{200A}')
        || c == '\u{2028}' || c == '\u{2029}' || c == '\u{202F}' || c == '\u{205F}' || c
        == '\u{3000}'
}

/// The tokens of `s`: its runs of characters that are not white space.
pub fn split_whitespace<'a>(s: &'a str) -> (r: Vec<&'a str>)
    ensures
        field_views(r@) == split_ws(s@),
{
    let ghost cs = s@;
    let n = s.unicode_len();
    let mut tokens: Vec<&'a str> = Vec::new();
    let mut start: usize = 0;
    let mut in_token = false;
    let mut i: usize = 0;
    assert(field_views(tokens@) =~= Seq::<Seq<char>>::empty());
    while i < n
        invariant
            cs == s@,
            n == cs.len(),
            i <= n,
            in_token ==> start < i,
            scan(cs, i as nat) == (field_views(tokens@), if in_token {
                cs.subrange(start as int, i as int)
            } else {
                Seq::<char>::empty()
            }),
        decreases n - i,
    {
        let c = s.get_char(i);
        let ghost before = tokens@;
        let ghost was_in = in_token;
        let ghost old_start = start;
        if is_whitespace(c) {
            if in_token {
                tokens.push(s.substring_char(start, i));
                assert(field_views(tokens@) =~= field_views(before).push(
                    cs.subrange(start as int, i as int),
                ));
                in_token = false;
            }
        } else {
            if !in_token {
                start = i;
                in_token = true;
            }
            proof {
                if was_in {
                    assert(cs.subrange(start as int, i + 1) =~= cs.subrange(start as int, i as int).push(c));
                } else {
                    assert(cs.subrange(start as int, i + 1) =~= Seq::<char>::empty().push(c));
                }
            }
        }
        i += 1;
    }
    if in_token {
        let ghost before = tokens@;
        tokens.push(s.substring_char(start, n));
        assert(field_views(tokens@) =~= field_views(before).push(cs.subrange(start as int, n as int)));
    }
    tokens
}

/// The number of white-space characters that `s` starts with.
pub open spec fn leading_ws(s: Seq<char>) -> nat
    decreases s.len(),
{
    if s.len() > 0 && is_ws(s[0]) {
        1 + leading_ws(s.drop_first())
    } else {
        0
    }
}

/// The number of white-space characters that `s` ends with.
pub open spec fn trailing_ws(s: Seq<char>) -> nat
    decreases s.len(),
{
    if s.len() > 0 && is_ws(s.last()) {
        1 + trailing_ws(s.drop_last())
    } else {
        0
    }
}

/// `s` without its leading and trailing white space.
pub open spec fn trim_spec(s: Seq<char>) -> Seq<char> {
    if leading_ws(s) >= s.len() {
        Seq::empty()
    } else {
        s.subrange(leading_ws(s) as int, s.len() - trailing_ws(s))
    }
}

proof fn lemma_leading_ws(s: Seq<char>, i: int)
    requires
        0 <= i <= s.len(),
        forall|j: int| 0 <= j < i ==> is_ws(#[trigger] s[j]),
    ensures
        leading_ws(s) == i + leading_ws(s.subrange(i, s.len() as int)),
    decreases i,
{
    if i > 0 {
        lemma_leading_ws(s.drop_first(), i - 1);
        assert(s.drop_first().subrange(i - 1, s.len() - 1) =~= s.subrange(i, s.len() as int));
    } else {
        assert(s.subrange(0, s.len() as int) =~= s);
    }
}

proof fn lemma_trailing_ws(s: Seq<char>, k: int)
    requires
        0 <= k <= s.len(),
        forall|j: int| s.len() - k <= j < s.len() ==> is_ws(#[trigger] s[j]),
    ensures
        trailing_ws(s) == k + trailing_ws(s.subrange(0, s.len() - k)),
    decreases k,
{
    if k > 0 {
        lemma_trailing_ws(s.drop_last(), k - 1);
        assert(s.drop_last().subrange(0, s.len() - 1 - (k - 1)) =~= s.subrange(0, s.len() - k));
    } else {
        assert(s.subrange(0, s.len() as int) =~= s);
    }
}

/// The line `s` without its leading and trailing white space.
pub fn trim_line(s: &str) -> (r: &str)
    ensures
        r@ == trim_spec(s@),
{
    let ghost cs = s@;
    let n = s.unicode_len();
    let mut i: usize = 0;
    while i < n && is_whitespace(s.get_char(i))
        invariant
            cs == s@,
            n == cs.len(),
            i <= n,
            forall|j: int| 0 <= j < i ==> is_ws(#[trigger] cs[j]),
        decreases n - i,
    {
        i += 1;
    }
    proof {
        lemma_leading_ws(cs, i as int);
    }
    if i == n {
        return s.substring_char(n, n);
    }
    assert(!is_ws(cs[i as int]));
    assert(leading_ws(cs.subrange(i as int, n as int)) == 0);
    let mut j: usize = n;
    while j > i && is_whitespace(s.get_char(j - 1))
        invariant
            cs == s@,
            n == cs.len(),
            i < n,
            !is_ws(cs[i as int]),
            i <= j <= n,
            forall|k: int| j <= k < n ==> is_ws(#[trigger] cs[k]),
        decreases j,
    {
        j -= 1;
    }
    proof {
        lemma_trailing_ws(cs, (n - j) as int);
        assert(j > i);
        assert(!is_ws(cs[j - 1]));
        assert(cs.subrange(0, j as int).last() == cs[j - 1]);
        assert(trailing_ws(cs.subrange(0, j as int)) == 0);
    }
    s.substring_char(i, j)
}

/// The value of a string of decimal digits.
pub open spec fn digits_value(s: Seq<char>) -> int
    decreases s.len(),
{
    if s.len() == 0 {
        0
    } else {
        digits_value(s.drop_last()) * 10 + digit_value(s.last())
    }
}

/// Every character of `s` is a decimal digit.
pub open spec fn all_digits(s: Seq<char>) -> bool {
    forall|i: int| 0 <= i < s.len() ==> is_digit(#[trigger] s[i])
}

/// What `str::parse::<i32>` gives: an optional sign, then at least one
/// decimal digit and nothing else, with a value that fits an `i32`.
pub open spec fn parse_i32_spec(s: Seq<char>) -> Option<i32> {
    let neg = s.len() > 0 && s[0] == '-';
    let digits = if s.len() > 0 && (s[0] == '-' || s[0] == '+') {
        s.drop_first()
    } else {
        s
    };
    let v = if neg {
        -digits_value(digits)
    } else {
        digits_value(digits)
    };
    if digits.len() > 0 && all_digits(digits) && i32::MIN <= v <= i32::MAX {
        Some(v as i32)
    } else {
        None
    }
}

proof fn lemma_digits_value_grows(s: Seq<char>, j: int)
    requires
        0 <= j <= s.len(),
        forall|i: int| 0 <= i < s.len() ==> is_digit(#[trigger] s[i]),
    ensures
        0 <= digits_value(s.take(j)) <= digits_value(s),
    decreases s.len(),
{
    if s.len() > 0 {
        if j == s.len() {
            assert(s.take(j) =~= s);
            lemma_digits_value_grows(s.drop_last(), j - 1);
            assert(s.drop_last().take(j - 1) =~= s.drop_last());
        } else {
            lemma_digits_value_grows(s.drop_last(), j);
            assert(s.drop_last().take(j) =~= s.take(j));
        }
    }
}

/// Reads a decimal `i32` as `str::parse::<i32>` does.
pub fn parse_i32(s: &str) -> (r: Option<i32>)
    ensures
        r == parse_i32_spec(s@),
{
    let ghost cs = s@;
    let n = s.unicode_len();
    if n == 0 {
        return None;
    }
    let first = s.get_char(0);
    let neg = first == '-';
    let start: usize = if first == '-' || first == '+' { 1 } else { 0 };
    let ghost digits = if first == '-' || first == '+' {
        cs.drop_first()
    } else {
        cs
    };
    assert(digits =~= cs.subrange(start as int, n as int));
    if start == n {
        return None;
    }
    let mut value: i64 = 0;
    let mut i: usize = start;
    assert(digits.take(0) =~= Seq::<char>::empty());
    while i < n
        invariant
            cs == s@,
            n == cs.len(),
            start <= i <= n,
            start <= 1,
            digits == cs.subrange(start as int, n as int),
            digits == if cs.len() > 0 && (cs[0] == '-' || cs[0] == '+') {
                cs.drop_first()
            } else {
                cs
            },
            neg == (cs.len() > 0 && cs[0] == '-'),
            forall|j: int| 0 <= j < i - start ==> is_digit(#[trigger] digits[j]),
            value == digits_value(digits.take(i - start)),
            0 <= value <= 2147483648,
        decreases n - i,
    {
        let c = s.get_char(i);
        assert(digits[i - start] == c);
        if c < '0' || c > '9' {
            assert(!is_digit(digits[i - start]));
            assert(parse_i32_spec(cs) is None);
            return None;
        }
        let d = (c as u32 - '0' as u32) as i64;
        let ghost k = i - start;
        assert(digits.take(k + 1).drop_last() =~= digits.take(k));
        value = value * 10 + d;
        i += 1;
        if value > 2147483648 {
            proof {
                if all_digits(digits) {
                    lemma_digits_value_grows(digits, i - start);
                }
                assert(parse_i32_spec(cs) is None);
            }
            return None;
        }
    }
    assert(digits.take(n - start) =~= digits);
    if neg {
        Some((-value) as i32)
    } else if value > 2147483647 {
        None
    } else {
        Some(value as i32)
    }
}

pub enum DebugCommand {
    Move(String),
    Undo,
    Fen,
    Print,
    PrintOccupied,
    PrintAttacks(String),
    PrintMoves(String),
    Position(String),
    EnPassant,
    CastlingRights,
    AllStats,
    Perft(i32),
    PerftSingleLine(i32),
    Divide(i32),
    Unknown(String),
}

pub enum UciCommand<'a> {
    Uci,
    IsReady,
    /// The fields of the FEN string, or `None` for the starting position,
    /// and the moves to play from it in UCI notation.
    Position { fen: Option<Vec<&'a str>>, moves: Vec<String> },
    Go,
    Stop,
    Quit,
    Debug(DebugCommand),
    Unknown(String),
}

/// A debug command with its strings as character sequences.
pub enum DebugView {
    Move(Seq<char>),
    Undo,
    Fen,
    Print,
    PrintOccupied,
    PrintAttacks(Seq<char>),
    PrintMoves(Seq<char>),
    Position(Seq<char>),
    EnPassant,
    CastlingRights,
    AllStats,
    Perft(i32),
    PerftSingleLine(i32),
    Divide(i32),
    Unknown(Seq<char>),
}

/// A command with its strings as character sequences.
pub enum CommandView {
    Uci,
    IsReady,
    Position { fen: Option<Seq<Seq<char>>>, moves: Seq<Seq<char>> },
    Go,
    Stop,
    Quit,
    Debug(DebugView),
    Unknown(Seq<char>),
}

impl View for DebugCommand {
    type V = DebugView;

    open spec fn view(&self) -> DebugView {
        match self {
            DebugCommand::Move(s) => DebugView::Move(s@),
            DebugCommand::Undo => DebugView::Undo,
            DebugCommand::Fen => DebugView::Fen,
            DebugCommand::Print => DebugView::Print,
            DebugCommand::PrintOccupied => DebugView::PrintOccupied,
            DebugCommand::PrintAttacks(s) => DebugView::PrintAttacks(s@),
            DebugCommand::PrintMoves(s) => DebugView::PrintMoves(s@),
            DebugCommand::Position(s) => DebugView::Position(s@),
            DebugCommand::EnPassant => DebugView::EnPassant,
            DebugCommand::CastlingRights => DebugView::CastlingRights,
            DebugCommand::AllStats => DebugView::AllStats,
            DebugCommand::Perft(n) => DebugView::Perft(*n),
            DebugCommand::PerftSingleLine(n) => DebugView::PerftSingleLine(*n),
            DebugCommand::Divide(n) => DebugView::Divide(*n),
            DebugCommand::Unknown(s) => DebugView::Unknown(s@),
        }
    }
}

/// The character sequences of a list of strings.
pub open spec fn string_views(v: Seq<String>) -> Seq<Seq<char>> {
    v.map_values(|s: String| s@)
}

impl<'a> View for UciCommand<'a> {
    type V = CommandView;

    open spec fn view(&self) -> CommandView {
        match self {
            UciCommand::Uci => CommandView::Uci,
            UciCommand::IsReady => CommandView::IsReady,
            UciCommand::Position { fen, moves } => CommandView::Position {
                fen: match fen {
                    Some(f) => Some(field_views(f@)),
                    None => None,
                },
                moves: string_views(moves@),
            },
            UciCommand::Go => CommandView::Go,
            UciCommand::Stop => CommandView::Stop,
            UciCommand::Quit => CommandView::Quit,
            UciCommand::Debug(d) => CommandView::Debug(d@),
            UciCommand::Unknown(s) => CommandView::Unknown(s@),
        }
    }
}

/// The token at index `i`, if there is one.
pub open spec fn tok(t: Seq<Seq<char>>, i: int) -> Option<Seq<char>> {
    if 0 <= i < t.len() {
        Some(t[i])
    } else {
        None
    }
}

/// The moves listed after the token at index `i`, when it is `moves`.
pub open spec fn moves_after(t: Seq<Seq<char>>, i: int) -> Seq<Seq<char>> {
    if 0 <= i < t.len() && t[i] == "moves"@ {
        t.subrange(i + 1, t.len() as int)
    } else {
        Seq::empty()
    }
}

/// The number of FEN fields read after `position fen`: up to six.
pub open spec fn fen_count(t: Seq<Seq<char>>) -> int {
    if t.len() - 2 < 6 {
        t.len() - 2
    } else {
        6
    }
}

/// The debug command of the tokens `t` of the line `s`.
pub open spec fn debug_spec(s: Seq<char>, t: Seq<Seq<char>>) -> DebugView {
    let unknown = DebugView::Unknown(s);
    match tok(t, 1) {
        None => unknown,
        Some(w) => if w == "fen"@ {
            DebugView::Fen
        } else if w == "print"@ {
            match tok(t, 2) {
                Some(w2) => if w2 == "occupied"@ {
                    DebugView::PrintOccupied
                } else if w2 == "attacks"@ {
                    match tok(t, 3) {
                        Some(n) => DebugView::PrintAttacks(n),
                        None => unknown,
                    }
                } else if w2 == "moves"@ {
                    match tok(t, 3) {
                        Some(n) => DebugView::PrintMoves(n),
                        None => unknown,
                    }
                } else {
                    DebugView::Print
                },
                None => DebugView::Print,
            }
        } else if w == "pos"@ {
            match tok(t, 2) {
                Some(n) => DebugView::Position(n),
                None => unknown,
            }
        } else if w == "enpassant"@ {
            DebugView::EnPassant
        } else if w == "move"@ {
            match tok(t, 2) {
                Some(n) => DebugView::Move(n),
                None => unknown,
            }
        } else if w == "undo"@ {
            DebugView::Undo
        } else if w == "castling"@ {
            DebugView::CastlingRights
        } else if w == "perft"@ {
            match tok(t, 2) {
                Some(w2) => if w2 == "singleline"@ {
                    match tok(t, 3) {
                        Some(n) => DebugView::PerftSingleLine(parse_i32_spec(n)->0),
                        None => unknown,
                    }
                } else {
                    DebugView::Perft(parse_i32_spec(w2)->0)
                },
                None => unknown,
            }
        } else if w == "divide"@ {
            match tok(t, 2) {
                Some(n) => DebugView::Divide(parse_i32_spec(n)->0),
                None => unknown,
            }
        } else if w == "allstats"@ {
            DebugView::AllStats
        } else {
            unknown
        },
    }
}

/// The numbers that a debug command reads are numbers.
pub open spec fn debug_ok(t: Seq<Seq<char>>) -> bool {
    match tok(t, 1) {
        None => true,
        Some(w) => if w == "fen"@ || w == "print"@ || w == "pos"@ || w == "enpassant"@ || w
            == "move"@ || w == "undo"@ || w == "castling"@ {
            true
        } else if w == "perft"@ {
            match tok(t, 2) {
                Some(w2) => if w2 == "singleline"@ {
                    match tok(t, 3) {
                        Some(n) => parse_i32_spec(n) is Some,
                        None => true,
                    }
                } else {
                    parse_i32_spec(w2) is Some
                },
                None => true,
            }
        } else if w == "divide"@ {
            match tok(t, 2) {
                Some(n) => parse_i32_spec(n) is Some,
                None => true,
            }
        } else {
            true
        },
    }
}

/// The command that the line `s` stands for.
pub open spec fn parse_spec(s: Seq<char>) -> CommandView {
    let t = split_ws(s);
    let unknown = CommandView::Unknown(s);
    match tok(t, 0) {
        None => unknown,
        Some(w) => if w == "uci"@ {
            CommandView::Uci
        } else if w == "isready"@ {
            CommandView::IsReady
        } else if w == "stop"@ {
            CommandView::Stop
        } else if w == "quit"@ {
            CommandView::Quit
        } else if w == "position"@ {
            match tok(t, 1) {
                Some(w1) => if w1 == "startpos"@ {
                    CommandView::Position { fen: None, moves: moves_after(t, 2) }
                } else if w1 == "fen"@ {
                    CommandView::Position {
                        fen: Some(t.subrange(2, 2 + fen_count(t))),
                        moves: moves_after(t, 2 + fen_count(t)),
                    }
                } else {
                    unknown
                },
                None => unknown,
            }
        } else if w == "go"@ {
            CommandView::Go
        } else if w == "debug"@ {
            CommandView::Debug(debug_spec(s, t))
        } else {
            unknown
        },
    }
}

/// The line can be parsed: `position fen` is followed by at least four
/// fields, and the numbers of `debug perft` and `debug divide` are numbers.
pub open spec fn parse_ok(s: Seq<char>) -> bool {
    let t = split_ws(s);
    match tok(t, 0) {
        None => true,
        Some(w) => if w == "uci"@ || w == "isready"@ || w == "stop"@ || w == "quit"@ {
            true
        } else if w == "position"@ {
            match tok(t, 1) {
                Some(w1) => if w1 == "startpos"@ {
                    true
                } else if w1 == "fen"@ {
                    fen_count(t) >= 4
                } else {
                    true
                },
                None => true,
            }
        } else if w == "go"@ {
            true
        } else if w == "debug"@ {
            debug_ok(t)
        } else {
            true
        },
    }
}

/// Whether the token at index `i` is `lit`.
fn token_is(tokens: &Vec<&str>, i: usize, lit: &str) -> (r: bool)
    ensures
        r == (tok(field_views(tokens@), i as int) == Some(lit@)),
{
    if i < tokens.len() {
        str_is(tokens[i], lit)
    } else {
        false
    }
}

/// The moves after the token at index `i`, when it is `moves`, as owned
/// strings.
fn read_moves(tokens: &Vec<&str>, i: usize) -> (r: Vec<String>)
    ensures
        string_views(r@) == moves_after(field_views(tokens@), i as int),
{
    let ghost t = field_views(tokens@);
    let mut moves: Vec<String> = Vec::new();
    assert(t.len() == tokens@.len());
    if i < tokens.len() && token_is(tokens, i, "moves") {
        let mut j = i + 1;
        assert(string_views(moves@) =~= t.subrange(i + 1, j as int));
        while j < tokens.len()
            invariant
                t == field_views(tokens@),
                i < j <= tokens.len(),
                string_views(moves@) == t.subrange(i + 1, j as int),
            decreases tokens.len() - j,
        {
            let ghost before = moves@;
            let m = String::from_str(tokens[j]);
            assert(t[j as int] == tokens@[j as int]@);
            assert(m@ == tokens@[j as int]@);
            moves.push(m);
            assert(string_views(moves@) =~= string_views(before).push(m@));
            assert(t.subrange(i + 1, j + 1) =~= t.subrange(i + 1, j as int).push(t[j as int]));
            j += 1;
        }
    } else {
        assert(string_views(moves@) =~= Seq::<Seq<char>>::empty());
    }
    moves
}

pub struct UciParser;

impl UciParser {
    /// The command that the line `s` stands for.
    pub fn parse<'a>(s: &'a str) -> (r: UciCommand<'a>)
        requires
            parse_ok(s@),
        ensures
            r@ == parse_spec(s@),
    {
        let tokens = split_whitespace(s);
        let ghost t = field_views(tokens@);
        assert(t.len() == tokens@.len());
        let unknown = String::from_str(s);
        if tokens.len() == 0 {
            return UciCommand::Unknown(unknown);
        }
        if token_is(&tokens, 0, "uci") {
            return UciCommand::Uci;
        }
        if token_is(&tokens, 0, "isready") {
            return UciCommand::IsReady;
        }
        if token_is(&tokens, 0, "stop") {
            return UciCommand::Stop;
        }
        if token_is(&tokens, 0, "quit") {
            return UciCommand::Quit;
        }
        if token_is(&tokens, 0, "position") {
            if token_is(&tokens, 1, "startpos") {
                let moves = read_moves(&tokens, 2);
                return UciCommand::Position { fen: None, moves };
            }
            if token_is(&tokens, 1, "fen") {
                let count: usize = if tokens.len() - 2 < 6 { tokens.len() - 2 } else { 6 };
                let mut fen: Vec<&'a str> = Vec::new();
                let mut j: usize = 0;
                while j < count
                    invariant
                        t == field_views(tokens@),
                        count == fen_count(t),
                        2 + count <= tokens.len(),
                        j <= count,
                        field_views(fen@) == t.subrange(2, 2 + j),
                    decreases count - j,
                {
                    let ghost before = fen@;
                    fen.push(tokens[2 + j]);
                    assert(field_views(fen@) =~= field_views(before).push(t[2 + j]));
                    assert(t.subrange(2, 2 + j + 1) =~= t.subrange(2, 2 + j).push(t[2 + j]));
                    j += 1;
                }
                let moves = read_moves(&tokens, 2 + count);
                return UciCommand::Position { fen: Some(fen), moves };
            }
            return UciCommand::Unknown(unknown);
        }
        if token_is(&tokens, 0, "go") {
            return UciCommand::Go;
        }
        if token_is(&tokens, 0, "debug") {
            return UciCommand::Debug(Self::parse_debug(&tokens, unknown));
        }
        UciCommand::Unknown(unknown)
    }

    /// The debug command of the tokens of a line that starts with `debug`;
    /// `line` is the whole line, which an unknown command carries.
    fn parse_debug(tokens: &Vec<&str>, line: String) -> (r: DebugCommand)
        requires
            debug_ok(field_views(tokens@)),
        ensures
            r@ == debug_spec(line@, field_views(tokens@)),
    {
        let ghost t = field_views(tokens@);
        assert(t.len() == tokens@.len());
        if tokens.len() < 2 {
            return DebugCommand::Unknown(line);
        }
        if token_is(tokens, 1, "fen") {
            return DebugCommand::Fen;
        }
        if token_is(tokens, 1, "print") {
            if tokens.len() < 3 {
                return DebugCommand::Print;
            }
            if token_is(tokens, 2, "occupied") {
                return DebugCommand::PrintOccupied;
            }
            if token_is(tokens, 2, "attacks") {
                if tokens.len() < 4 {
                    return DebugCommand::Unknown(line);
                }
                return DebugCommand::PrintAttacks(String::from_str(tokens[3]));
            }
            if token_is(tokens, 2, "moves") {
                if tokens.len() < 4 {
                    return DebugCommand::Unknown(line);
                }
                return DebugCommand::PrintMoves(String::from_str(tokens[3]));
            }
            return DebugCommand::Print;
        }
        if token_is(tokens, 1, "pos") {
            if tokens.len() < 3 {
                return DebugCommand::Unknown(line);
            }
            return DebugCommand::Position(String::from_str(tokens[2]));
        }
        if token_is(tokens, 1, "enpassant") {
            return DebugCommand::EnPassant;
        }
        if token_is(tokens, 1, "move") {
            if tokens.len() < 3 {
                return DebugCommand::Unknown(line);
            }
            return DebugCommand::Move(String::from_str(tokens[2]));
        }
        if token_is(tokens, 1, "undo") {
            return DebugCommand::Undo;
        }
        if token_is(tokens, 1, "castling") {
            return DebugCommand::CastlingRights;
        }
        if token_is(tokens, 1, "perft") {
            if tokens.len() < 3 {
                return DebugCommand::Unknown(line);
            }
            if token_is(tokens, 2, "singleline") {
                if tokens.len() < 4 {
                    return DebugCommand::Unknown(line);
                }
                return DebugCommand::PerftSingleLine(parse_i32(tokens[3]).unwrap());
            }
            return DebugCommand::Perft(parse_i32(tokens[2]).unwrap());
        }
        if token_is(tokens, 1, "divide") {
            if tokens.len() < 3 {
                return DebugCommand::Unknown(line);
            }
            return DebugCommand::Divide(parse_i32(tokens[2]).unwrap());
        }
        if token_is(tokens, 1, "allstats") {
            return DebugCommand::AllStats;
        }
        DebugCommand::Unknown(line)
    }

    /// Whether `UciParser::parse` can parse the line `s`.
    pub fn can_parse(s: &str) -> (r: bool)
        ensures
            r == parse_ok(s@),
    {
        let tokens = split_whitespace(s);
        let ghost t = field_views(tokens@);
        if tokens.len() == 0 {
            return true;
        }
        if token_is(&tokens, 0, "uci") || token_is(&tokens, 0, "isready") || token_is(&tokens, 0, "stop")
            || token_is(&tokens, 0, "quit") {
            return true;
        }
        if token_is(&tokens, 0, "position") {
            if token_is(&tokens, 1, "startpos") {
                return true;
            }
            if token_is(&tokens, 1, "fen") {
                return tokens.len() >= 6;
            }
            return true;
        }
        if token_is(&tokens, 0, "go") {
            return true;
        }
        if !token_is(&tokens, 0, "debug") {
            return true;
        }
        if tokens.len() < 2 {
            return true;
        }
        if token_is(&tokens, 1, "fen") || token_is(&tokens, 1, "print") || token_is(&tokens, 1, "pos")
            || token_is(&tokens, 1, "enpassant") || token_is(&tokens, 1, "move") || token_is(&tokens, 1, "undo")
            || token_is(&tokens, 1, "castling") {
            return true;
        }
        if token_is(&tokens, 1, "perft") {
            if tokens.len() < 3 {
                return true;
            }
            if token_is(&tokens, 2, "singleline") {
                if tokens.len() < 4 {
                    return true;
                }
                return parse_i32(tokens[3]).is_some();
            }
            return parse_i32(tokens[2]).is_some();
        }
        if token_is(&tokens, 1, "divide") {
            if tokens.len() < 3 {
                return true;
            }
            return parse_i32(tokens[2]).is_some();
        }
        true
    }
}

} // verus!
