use vstd::prelude::*;
use crate::geom::{Coords, Position, within, OPERAND_LIMIT};

verus! {

// ---------------------------------------------------------------------------
// Instructions are lines of whitespace-delimited tokens: a verb followed by
// numeric operands. An operand is an optional sign, one to nine integer
// digits, and optionally a point with one to six fraction digits; its value
// is held exactly in micro-units. Anything else is rejected, with no effect
// on the interpreter.
// ---------------------------------------------------------------------------

/// Why a line was rejected.
#[derive(Clone, Copy, Debug, PartialEq, Eq, Structural)]
pub enum CommandError {
    /// Unrecognized verb or wrong number of tokens.
    MalformedCommand,
    /// A coordinate token that is not a number in range.
    InvalidOperand,
}

/// A successfully parsed instruction, operands in micro-units.
#[derive(Clone, Copy, Debug)]
pub enum Command {
    /// Move linearly toward `target`.
    Lin { target: Position },
    /// Clockwise arc around `center`, arriving at `stop`.
    Cw { stop: Position, center: Position },
    /// Counter-clockwise arc around `center`, arriving at `stop`.
    Ccw { stop: Position, center: Position },
}

/// Mathematical model of a parsed instruction.
pub enum MoveCommand {
    Lin { target: Coords },
    Cw { stop: Coords, center: Coords },
    Ccw { stop: Coords, center: Coords },
}

impl View for Command {
    type V = MoveCommand;

    open spec fn view(&self) -> MoveCommand {
        match *self {
            Command::Lin { target } => MoveCommand::Lin { target: target@ },
            Command::Cw { stop, center } => MoveCommand::Cw { stop: stop@, center: center@ },
            Command::Ccw { stop, center } => MoveCommand::Ccw { stop: stop@, center: center@ },
        }
    }
}

// ---------------------------------------------------------------------------
// Tokenization: maximal runs of non-whitespace characters.
// ---------------------------------------------------------------------------

/// Token separators: the blank characters a line is split on.
pub open spec fn is_separator(c: char) -> bool {
    c == ' ' || c == '\t'
}

/// Length of the leading run of non-separator characters.
pub open spec fn word_len(s: Seq<char>) -> int
    decreases s.len(),
{
    if s.len() == 0 || is_separator(s[0]) {
        0
    } else {
        1 + word_len(s.drop_first())
    }
}

pub proof fn lemma_word_len_bounds(s: Seq<char>)
    ensures
        0 <= word_len(s) <= s.len(),
    decreases s.len(),
{
    if s.len() > 0 && !is_separator(s[0]) {
        lemma_word_len_bounds(s.drop_first());
    }
}

/// The tokens of a line: its maximal runs of non-separator characters,
/// in order.
pub open spec fn spec_tokens(s: Seq<char>) -> Seq<Seq<char>>
    decreases s.len(),
    via spec_tokens_decreases
{
    if s.len() == 0 {
        Seq::empty()
    } else if is_separator(s[0]) {
        spec_tokens(s.drop_first())
    } else {
        seq![s.take(word_len(s))] + spec_tokens(s.skip(word_len(s)))
    }
}

#[via_fn]
proof fn spec_tokens_decreases(s: Seq<char>) {
    if s.len() > 0 && !is_separator(s[0]) {
        lemma_word_len_bounds(s.drop_first());
        lemma_word_len_bounds(s);
    }
}

/// A leading run of non-separators up to a separator (or the end) is exactly
/// the leading word.
proof fn lemma_word_run(s: Seq<char>, a: int, b: int)
    requires
        0 <= a <= b <= s.len(),
        forall|t: int| a <= t < b ==> !is_separator(#[trigger] s[t]),
        b == s.len() || is_separator(s[b]),
    ensures
        word_len(s.skip(a)) == b - a,
    decreases b - a,
{
    if a == b {
        if b < s.len() {
            assert(s.skip(a)[0] == s[b]);
        }
    } else {
        assert(s.skip(a)[0] == s[a]);
        assert(s.skip(a).drop_first() =~= s.skip(a + 1));
        lemma_word_run(s, a + 1, b);
    }
}

/// True when the character `i` of `line` is not a token separator.
fn non_sep_at(line: &str, i: usize) -> (b: bool)
    requires
        i < line@.len(),
    ensures
        b == !is_separator(line@[i as int]),
{
    let c = line.get_char(i);
    c != ' ' && c != '\t'
}

/// Reads the tokens of `line` off left to right.
pub fn tokenize(line: &str) -> (tokens: Vec<String>)
    ensures
        tokens@.map_values(|t: String| t@) == spec_tokens(line@),
{
    let len = line.unicode_len();
    let mut tokens: Vec<String> = Vec::new();
    let mut i: usize = 0;
    proof {
        assert(line@.skip(0) =~= line@);
        assert(tokens@.map_values(|t: String| t@) =~= Seq::<Seq<char>>::empty());
        assert(Seq::<Seq<char>>::empty() + spec_tokens(line@) =~= spec_tokens(line@));
    }
    while i < len
        invariant
            0 <= i <= len,
            len == line@.len(),
            spec_tokens(line@) == tokens@.map_values(|t: String| t@) + spec_tokens(line@.skip(i as int)),
        decreases len - i,
    {
        let c = line.get_char(i);
        if c == ' ' || c == '\t' {
            proof {
                assert(line@.skip(i as int)[0] == line@[i as int]);
                assert(line@.skip(i as int).drop_first() =~= line@.skip(i as int + 1));
            }
            i = i + 1;
        } else {
            let tok_start = i;
            i = i + 1;
            while i < len && non_sep_at(line, i)
                invariant
                    tok_start < i <= len,
                    len == line@.len(),
                    forall|t: int| tok_start <= t < i ==> !is_separator(#[trigger] line@[t]),
                decreases len - i,
            {
                i = i + 1;
            }
            let tok = line.substring_char(tok_start, i).to_owned();
            proof {
                let ghost s = line@;
                lemma_word_run(s, tok_start as int, i as int);
                let rest = s.skip(tok_start as int);
                assert(rest.take(word_len(rest)) =~= s.subrange(tok_start as int, i as int));
                assert(rest.skip(word_len(rest)) =~= s.skip(i as int));
                assert(spec_tokens(rest) == seq![tok@] + spec_tokens(s.skip(i as int)));
                assert(tokens@.push(tok).map_values(|t: String| t@) =~= tokens@.map_values(
                    |t: String| t@,
                ).push(tok@));
                assert(tokens@.map_values(|t: String| t@).push(tok@) + spec_tokens(
                    s.skip(i as int),
                ) =~= tokens@.map_values(|t: String| t@) + spec_tokens(rest));
            }
            tokens.push(tok);
        }
    }
    proof {
        assert(line@.skip(len as int) =~= Seq::<char>::empty());
        assert(tokens@.map_values(|t: String| t@) + Seq::<Seq<char>>::empty() =~= tokens@.map_values(
            |t: String| t@,
        ));
    }
    tokens
}

// ---------------------------------------------------------------------------
// Numeric operands: optional sign, one to nine integer digits, optionally a
// point with one to six fraction digits; value in micro-units, exactly.
// ---------------------------------------------------------------------------

pub open spec fn is_digit(c: char) -> bool {
    48 <= c as u32 <= 57
}

pub open spec fn digit_val(c: char) -> int {
    c as u32 - 48
}

pub open spec fn all_digits(s: Seq<char>) -> bool {
    forall|i: int| 0 <= i < s.len() ==> is_digit(#[trigger] s[i])
}

/// Base-ten value of a digit string.
pub open spec fn digits_val(s: Seq<char>) -> int
    decreases s.len(),
{
    if s.len() == 0 {
        0
    } else {
        10 * digits_val(s.drop_last()) + digit_val(s.last())
    }
}

/// Index of the first point character, or the length if there is none.
pub open spec fn dot_index(s: Seq<char>) -> int
    decreases s.len(),
{
    if s.len() == 0 {
        0
    } else if s[0] == '.' {
        0
    } else {
        1 + dot_index(s.drop_first())
    }
}

pub open spec fn pow10(e: int) -> int
    decreases e,
{
    if e <= 0 {
        1
    } else {
        10 * pow10(e - 1)
    }
}

/// An unsigned operand body: one to nine integer digits, optionally a point
/// with one to six fraction digits.
pub open spec fn valid_unsigned(b: Seq<char>) -> bool {
    let d = dot_index(b);
    &&& 1 <= d <= 9
    &&& all_digits(b.take(d))
    &&& (d == b.len() || (d + 2 <= b.len() && b.len() - d - 1 <= 6 && all_digits(b.skip(d + 1))))
}

/// Value of an unsigned operand body in micro-units: the integer digits
/// scaled up, plus the fraction digits padded out to six places.
pub open spec fn unsigned_value(b: Seq<char>) -> int {
    let d = dot_index(b);
    if d == b.len() {
        digits_val(b.take(d)) * 1_000_000
    } else {
        digits_val(b.take(d)) * 1_000_000 + digits_val(b.skip(d + 1)) * pow10(
            6 - (b.len() - d - 1),
        )
    }
}

/// The exact value, in micro-units, a numeric operand token stands for, or
/// nothing if the token is not a number this language accepts.
pub open spec fn spec_parse_operand(s: Seq<char>) -> Option<int> {
    if s.len() == 0 {
        None
    } else {
        let body = if s[0] == '+' || s[0] == '-' {
            s.drop_first()
        } else {
            s
        };
        if valid_unsigned(body) {
            if s[0] == '-' {
                Some(-unsigned_value(body))
            } else {
                Some(unsigned_value(body))
            }
        } else {
            None
        }
    }
}

proof fn lemma_pow10_bounds(e: int)
    requires
        0 <= e <= 9,
    ensures
        1 <= pow10(e) <= 1_000_000_000,
        e <= 6 ==> pow10(e) <= 1_000_000,
{
    reveal_with_fuel(pow10, 11);
}

proof fn lemma_pow10_split6(f: int)
    requires
        1 <= f <= 6,
    ensures
        pow10(f) * pow10(6 - f) == 1_000_000,
{
    reveal_with_fuel(pow10, 8);
    assert(pow10(0) == 1);
    assert(pow10(1) == 10);
    assert(pow10(2) == 100);
    assert(pow10(3) == 1_000);
    assert(pow10(4) == 10_000);
    assert(pow10(5) == 100_000);
    assert(pow10(6) == 1_000_000);
    assert(pow10(f) * pow10(6 - f) == 1_000_000) by (nonlinear_arith)
        requires
            1 <= f <= 6,
            pow10(0) == 1,
            pow10(1) == 10,
            pow10(2) == 100,
            pow10(3) == 1_000,
            pow10(4) == 10_000,
            pow10(5) == 100_000,
            pow10(6) == 1_000_000,
    ;
}

pub proof fn lemma_dot_index_bounds(s: Seq<char>)
    ensures
        0 <= dot_index(s) <= s.len(),
    decreases s.len(),
{
    if s.len() > 0 && s[0] != '.' {
        lemma_dot_index_bounds(s.drop_first());
    }
}

/// A run without a point up to a point (or the end) pins the point index.
proof fn lemma_dot_run(s: Seq<char>, a: int, b: int)
    requires
        0 <= a <= b <= s.len(),
        forall|t: int| a <= t < b ==> #[trigger] s[t] != '.',
        b == s.len() || s[b] == '.',
    ensures
        dot_index(s.skip(a)) == b - a,
    decreases b - a,
{
    if a == b {
        if b < s.len() {
            assert(s.skip(a)[0] == s[b]);
        }
    } else {
        assert(s.skip(a)[0] == s[a]);
        assert(s.skip(a).drop_first() =~= s.skip(a + 1));
        lemma_dot_run(s, a + 1, b);
    }
}

proof fn lemma_digits_val_bound(s: Seq<char>)
    requires
        all_digits(s),
    ensures
        0 <= digits_val(s) < pow10(s.len() as int),
    decreases s.len(),
{
    if s.len() > 0 {
        assert(all_digits(s.drop_last())) by {
            assert(forall|i: int|
                0 <= i < s.len() - 1 ==> s.drop_last()[i] == #[trigger] s[i]);
        }
        lemma_digits_val_bound(s.drop_last());
    }
}

/// Every value a numeric operand can stand for is strictly inside the
/// operand range.
pub proof fn lemma_operand_in_range(s: Seq<char>)
    ensures
        spec_parse_operand(s) matches Some(v) ==> -OPERAND_LIMIT < v < OPERAND_LIMIT,
{
    if spec_parse_operand(s) is Some {
        let body = if s[0] == '+' || s[0] == '-' {
            s.drop_first()
        } else {
            s
        };
        let d = dot_index(body);
        lemma_dot_index_bounds(body);
        lemma_digits_val_bound(body.take(d));
        lemma_pow10_bounds(d);
        assert(digits_val(body.take(d)) * 1_000_000 < 1_000_000_000 * 1_000_000)
            by (nonlinear_arith)
            requires
                0 <= digits_val(body.take(d)) < 1_000_000_000,
        ;
        assert(digits_val(body.take(d)) * 1_000_000 >= 0) by (nonlinear_arith)
            requires
                0 <= digits_val(body.take(d)),
        ;
        if d != body.len() {
            let f = body.len() - d - 1;
            let frac = digits_val(body.skip(d + 1));
            lemma_digits_val_bound(body.skip(d + 1));
            lemma_pow10_split6(f);
            lemma_pow10_bounds(6 - f);
            assert(0 <= frac * pow10(6 - f) < 1_000_000) by (nonlinear_arith)
                requires
                    0 <= frac < pow10(f),
                    1 <= pow10(6 - f),
                    pow10(f) * pow10(6 - f) == 1_000_000,
            ;
        }
    }
}

fn pow10_lookup(e: u64) -> (r: i64)
    requires
        e <= 6,
    ensures
        r as int == pow10(e as int),
        1 <= r <= 1_000_000,
{
    proof {
        reveal_with_fuel(pow10, 8);
    }
    if e == 0 {
        1
    } else if e == 1 {
        10
    } else if e == 2 {
        100
    } else if e == 3 {
        1_000
    } else if e == 4 {
        10_000
    } else if e == 5 {
        100_000
    } else {
        1_000_000
    }
}

/// Reads the digit run `s[a..b]` as a base-ten number, or nothing if any
/// character in the range is not a digit.
fn parse_digits(s: &str, a: usize, b: usize) -> (r: Option<i64>)
    requires
        a <= b <= s@.len(),
        b - a <= 9,
    ensures
        r is Some <==> all_digits(s@.subrange(a as int, b as int)),
        r matches Some(v) ==> v as int == digits_val(s@.subrange(a as int, b as int)) && 0 <= v
            < pow10(b - a),
{
    let mut acc: i64 = 0;
    let mut j: usize = a;
    proof {
        assert(s@.subrange(a as int, a as int) =~= Seq::<char>::empty());
    }
    while j < b
        invariant
            a <= j <= b <= s@.len(),
            b - a <= 9,
            all_digits(s@.subrange(a as int, j as int)),
            acc as int == digits_val(s@.subrange(a as int, j as int)),
            0 <= acc < pow10(j - a),
            pow10(j - a) <= 1_000_000_000,
        decreases b - j,
    {
        let c = s.get_char(j);
        let u = c as u32;
        if u < 48 || u > 57 {
            proof {
                assert(s@.subrange(a as int, b as int)[j - a] == s@[j as int]);
                assert(!all_digits(s@.subrange(a as int, b as int)));
            }
            return None;
        }
        proof {
            let pre = s@.subrange(a as int, j as int);
            let ext = s@.subrange(a as int, j as int + 1);
            assert(ext.drop_last() =~= pre);
            assert(ext.last() == s@[j as int]);
            assert(forall|i: int| 0 <= i < ext.len() ==> is_digit(#[trigger] ext[i]));
            lemma_pow10_bounds(j + 1 - a);
        }
        acc = acc * 10 + ((u - 48) as i64);
        j = j + 1;
    }
    Some(acc)
}

/// Parses one numeric operand token into micro-units.
pub fn parse_operand(token: &str) -> (r: Option<i64>)
    ensures
        r is Some <==> spec_parse_operand(token@) is Some,
        r matches Some(v) ==> spec_parse_operand(token@) == Some(v as int) && -OPERAND_LIMIT < v
            < OPERAND_LIMIT,
{
    let len = token.unicode_len();
    if len == 0 {
        return None;
    }
    let first = token.get_char(0);
    let signed = first == '+' || first == '-';
    let start: usize = if signed {
        1
    } else {
        0
    };
    let ghost body = if signed {
        token@.drop_first()
    } else {
        token@
    };
    proof {
        assert(body =~= token@.skip(start as int));
        lemma_operand_in_range(token@);
    }
    let mut j: usize = start;
    while j < len && not_dot_at(token, j)
        invariant
            start <= j <= len,
            len == token@.len(),
            forall|t: int| start <= t < j ==> #[trigger] token@[t] != '.',
        decreases len - j,
    {
        j = j + 1;
    }
    let d = j;
    proof {
        lemma_dot_run(token@, start as int, d as int);
        assert(dot_index(body) == d - start);
    }
    if d == start || d - start > 9 {
        return None;
    }
    let int_digits = parse_digits(token, start, d);
    proof {
        assert(body.take(dot_index(body)) =~= token@.subrange(start as int, d as int));
    }
    let int_part = match int_digits {
        Some(v) => v,
        None => {
            return None;
        },
    };
    proof {
        lemma_pow10_bounds(d - start as int);
        assert(int_part * 1_000_000 < 1_000_000_000 * 1_000_000) by (nonlinear_arith)
            requires
                0 <= int_part < 1_000_000_000,
        ;
        assert(int_part * 1_000_000 >= 0) by (nonlinear_arith)
            requires
                0 <= int_part,
        ;
    }
    let magnitude: i64;
    if d == len {
        magnitude = int_part * 1_000_000;
    } else {
        let flen = len - d - 1;
        if flen == 0 || flen > 6 {
            return None;
        }
        let frac_digits = parse_digits(token, d + 1, len);
        proof {
            assert(body.skip(dot_index(body) + 1) =~= token@.subrange(d as int + 1, len as int));
        }
        let frac_part = match frac_digits {
            Some(v) => v,
            None => {
                return None;
            },
        };
        let scale = pow10_lookup((6 - flen) as u64);
        proof {
            lemma_pow10_split6(flen as int);
            assert(0 <= frac_part * scale < 1_000_000) by (nonlinear_arith)
                requires
                    0 <= frac_part < pow10(flen as int),
                    1 <= scale,
                    pow10(flen as int) * (scale as int) == 1_000_000,
            ;
        }
        magnitude = int_part * 1_000_000 + frac_part * scale;
    }
    if signed && first == '-' {
        Some(-magnitude)
    } else {
        Some(magnitude)
    }
}

// ---------------------------------------------------------------------------
// Lines: a verb token followed by the operand tokens its arity asks for.
// ---------------------------------------------------------------------------

/// Three consecutive operand tokens as one point, if all three are numbers.
pub open spec fn spec_operand3(a: Seq<char>, b: Seq<char>, c: Seq<char>) -> Option<Coords> {
    if spec_parse_operand(a) is Some && spec_parse_operand(b) is Some && spec_parse_operand(c)
        is Some {
        Some(
            (Coords {
                x: spec_parse_operand(a)->0,
                y: spec_parse_operand(b)->0,
                z: spec_parse_operand(c)->0,
            }),
        )
    } else {
        None
    }
}

/// The instruction a line stands for: the verb selects the operation, the
/// token count must match its arity, and every operand must be a number;
/// otherwise the line is rejected with the matching error.
pub open spec fn spec_parse_line(s: Seq<char>) -> Result<MoveCommand, CommandError> {
    let toks = spec_tokens(s);
    if toks.len() == 0 {
        Err(CommandError::MalformedCommand)
    } else if toks[0] == seq!['L', 'I', 'N'] {
        if toks.len() != 4 {
            Err(CommandError::MalformedCommand)
        } else {
            match spec_operand3(toks[1], toks[2], toks[3]) {
                Some(target) => Ok(MoveCommand::Lin { target }),
                None => Err(CommandError::InvalidOperand),
            }
        }
    } else if toks[0] == seq!['C', 'W'] {
        if toks.len() != 7 {
            Err(CommandError::MalformedCommand)
        } else {
            match spec_operand3(toks[1], toks[2], toks[3]) {
                Some(stop) => match spec_operand3(toks[4], toks[5], toks[6]) {
                    Some(center) => Ok(MoveCommand::Cw { stop, center }),
                    None => Err(CommandError::InvalidOperand),
                },
                None => Err(CommandError::InvalidOperand),
            }
        }
    } else if toks[0] == seq!['C', 'C', 'W'] {
        if toks.len() != 7 {
            Err(CommandError::MalformedCommand)
        } else {
            match spec_operand3(toks[1], toks[2], toks[3]) {
                Some(stop) => match spec_operand3(toks[4], toks[5], toks[6]) {
                    Some(center) => Ok(MoveCommand::Ccw { stop, center }),
                    None => Err(CommandError::InvalidOperand),
                },
                None => Err(CommandError::InvalidOperand),
            }
        }
    } else {
        Err(CommandError::MalformedCommand)
    }
}

/// Compares a token against a verb.
fn keyword_is(t: &String, word: &str) -> (b: bool)
    ensures
        b == (t@ == word@),
{
    let ts = t.as_str();
    let n = ts.unicode_len();
    if n != word.unicode_len() {
        return false;
    }
    let mut i: usize = 0;
    while i < n
        invariant
            i <= n,
            ts@ == t@,
            n == t@.len(),
            n == word@.len(),
            forall|k: int| 0 <= k < i ==> t@[k] == word@[k],
        decreases n - i,
    {
        if ts.get_char(i) != word.get_char(i) {
            return false;
        }
        i = i + 1;
    }
    proof {
        assert(t@ =~= word@);
    }
    true
}

/// Three consecutive operand tokens as one position.
fn parse_triple(tokens: &Vec<String>, at: usize) -> (r: Option<Position>)
    requires
        at + 3 <= tokens@.len(),
    ensures
        r is Some <==> spec_operand3(
            tokens@[at as int]@,
            tokens@[at as int + 1]@,
            tokens@[at as int + 2]@,
        ) is Some,
        r matches Some(p) ==> Some(p@) == spec_operand3(
            tokens@[at as int]@,
            tokens@[at as int + 1]@,
            tokens@[at as int + 2]@,
        ),
{
    let n = tokens.len();
    let x = parse_operand(tokens[at].as_str());
    let y = parse_operand(tokens[at + 1].as_str());
    let z = parse_operand(tokens[at + 2].as_str());
    match (x, y, z) {
        (Some(a), Some(b), Some(c)) => Some(Position::new(a, b, c)),
        _ => None,
    }
}

/// Parses one instruction line.
pub fn parse_line(line: &str) -> (r: Result<Command, CommandError>)
    ensures
        r is Ok <==> spec_parse_line(line@) is Ok,
        r matches Ok(cmd) ==> cmd@ == spec_parse_line(line@)->Ok_0,
        r matches Err(e) ==> e == spec_parse_line(line@)->Err_0,
{
    let tokens = tokenize(line);
    proof {
        reveal_strlit("LIN");
        reveal_strlit("CW");
        reveal_strlit("CCW");
        assert("LIN"@ =~= seq!['L', 'I', 'N']);
        assert("CW"@ =~= seq!['C', 'W']);
        assert("CCW"@ =~= seq!['C', 'C', 'W']);
    }
    if tokens.len() == 0 {
        return Err(CommandError::MalformedCommand);
    }
    if keyword_is(&tokens[0], "LIN") {
        if tokens.len() != 4 {
            return Err(CommandError::MalformedCommand);
        }
        match parse_triple(&tokens, 1) {
            Some(target) => Ok(Command::Lin { target }),
            None => Err(CommandError::InvalidOperand),
        }
    } else if keyword_is(&tokens[0], "CW") {
        if tokens.len() != 7 {
            return Err(CommandError::MalformedCommand);
        }
        match parse_triple(&tokens, 1) {
            Some(stop) => match parse_triple(&tokens, 4) {
                Some(center) => Ok(Command::Cw { stop, center }),
                None => Err(CommandError::InvalidOperand),
            },
            None => Err(CommandError::InvalidOperand),
        }
    } else if keyword_is(&tokens[0], "CCW") {
        if tokens.len() != 7 {
            return Err(CommandError::MalformedCommand);
        }
        match parse_triple(&tokens, 1) {
            Some(stop) => match parse_triple(&tokens, 4) {
                Some(center) => Ok(Command::Ccw { stop, center }),
                None => Err(CommandError::InvalidOperand),
            },
            None => Err(CommandError::InvalidOperand),
        }
    } else {
        Err(CommandError::MalformedCommand)
    }
}

/// Every operand of a successfully parsed instruction is strictly inside the
/// operand range.
pub proof fn lemma_parsed_line_in_range(s: Seq<char>)
    ensures
        spec_parse_line(s) matches Ok(cmd) ==> match cmd {
            MoveCommand::Lin { target } => within(target, OPERAND_LIMIT as int),
            MoveCommand::Cw { stop, center } => within(stop, OPERAND_LIMIT as int) && within(
                center,
                OPERAND_LIMIT as int,
            ),
            MoveCommand::Ccw { stop, center } => within(stop, OPERAND_LIMIT as int) && within(
                center,
                OPERAND_LIMIT as int,
            ),
        },
{
    let toks = spec_tokens(s);
    if toks.len() >= 7 {
        lemma_operand_in_range(toks[1]);
        lemma_operand_in_range(toks[2]);
        lemma_operand_in_range(toks[3]);
        lemma_operand_in_range(toks[4]);
        lemma_operand_in_range(toks[5]);
        lemma_operand_in_range(toks[6]);
    } else if toks.len() >= 4 {
        lemma_operand_in_range(toks[1]);
        lemma_operand_in_range(toks[2]);
        lemma_operand_in_range(toks[3]);
    }
}

/// True when the character `i` of `line` is not a point.
fn not_dot_at(line: &str, i: usize) -> (b: bool)
    requires
        i < line@.len(),
    ensures
        b == (line@[i as int] != '.'),
{
    let c = line.get_char(i);
    c != '.'
}

} // verus!
