//! The command words a player sends: `bet <amount>`, `hit`, `stay`.

use vstd::prelude::*;
use crate::game::MAX_WAGER;

verus! {

/// A command as the engine understands it.
#[derive(Debug, Clone, Copy, PartialEq, Eq, Structural)]
pub enum Command {
    /// `bet` with a usable amount.
    Bet(u64),
    /// `bet` with a missing, non-numeric or too large amount.
    InvalidBet,
    Hit,
    Stay,
    /// Any other first word: not a command of this engine.
    Unknown,
}

/// Where the word that starts at `from` ends: the next space, or the end.
pub open spec fn word_end(s: Seq<char>, from: int) -> int
    decreases s.len() - from,
{
    if from < 0 || from >= s.len() {
        s.len() as int
    } else if s[from] == ' ' {
        from
    } else {
        word_end(s, from + 1)
    }
}

/// The first word, up to the first space.
pub open spec fn verb_of(s: Seq<char>) -> Seq<char> {
    s.subrange(0, word_end(s, 0))
}

/// The second word, between the first and the second space, if there is a
/// first space.
pub open spec fn argument_of(s: Seq<char>) -> Option<Seq<char>> {
    let k = word_end(s, 0);
    if k < s.len() {
        Some(s.subrange(k + 1, word_end(s, k + 1)))
    } else {
        None
    }
}

pub open spec fn is_digit(c: char) -> bool {
    '0' <= c && c <= '9'
}

pub open spec fn digit_value(c: char) -> int {
    (c as u32) as int - ('0' as u32) as int
}

/// The number that a run of decimal digits stands for.
pub open spec fn decimal_value(s: Seq<char>) -> int
    decreases s.len(),
{
    if s.len() == 0 {
        0
    } else {
        decimal_value(s.drop_last()) * 10 + digit_value(s.last())
    }
}

/// An amount may carry one leading plus sign.
pub open spec fn amount_digits(a: Seq<char>) -> Seq<char> {
    if a.len() > 0 && a[0] == '+' {
        a.drop_first()
    } else {
        a
    }
}

/// An amount that can be bet: decimal digits, at least one, worth at most
/// `MAX_WAGER`.
pub open spec fn is_wager_text(a: Seq<char>) -> bool {
    let d = amount_digits(a);
    &&& d.len() > 0
    &&& forall|i: int| 0 <= i < d.len() ==> is_digit(#[trigger] d[i])
    &&& decimal_value(d) <= MAX_WAGER
}

/// The command that the text `s` (already in lower case) stands for.
pub open spec fn command_of(s: Seq<char>) -> Command {
    let verb = verb_of(s);
    if verb == "bet"@ {
        match argument_of(s) {
            Some(a) => if is_wager_text(a) {
                Command::Bet(decimal_value(amount_digits(a)) as u64)
            } else {
                Command::InvalidBet
            },
            None => Command::InvalidBet,
        }
    } else if verb == "hit"@ {
        Command::Hit
    } else if verb == "stay"@ {
        Command::Stay
    } else {
        Command::Unknown
    }
}

fn find_word_end(s: &str, from: usize) -> (r: usize)
    requires
        from <= s@.len(),
    ensures
        r == word_end(s@, from as int),
        from <= r <= s@.len(),
{
    let n = s.unicode_len();
    let mut i = from;
    while i < n && s.get_char(i) != ' '
        invariant
            n == s@.len(),
            from <= i <= n,
            word_end(s@, i as int) == word_end(s@, from as int),
        decreases n - i,
    {
        i = i + 1;
    }
    i
}

/// Whether the characters of `s` from `from` to `to` spell `word`.
fn spells(s: &str, from: usize, to: usize, word: &str) -> (r: bool)
    requires
        from <= to <= s@.len(),
    ensures
        r == (s@.subrange(from as int, to as int) == word@),
{
    let n = word.unicode_len();
    if to - from != n {
        return false;
    }
    let mut i: usize = 0;
    while i < n
        invariant
            n == word@.len(),
            to - from == n,
            from <= to <= s@.len(),
            i <= n,
            forall|j: int| 0 <= j < i ==> s@[from + j] == word@[j],
        decreases n - i,
    {
        if s.get_char(from + i) != word.get_char(i) {
            assert(s@.subrange(from as int, to as int)[i as int] != word@[i as int]);
            return false;
        }
        i = i + 1;
    }
    assert(s@.subrange(from as int, to as int) =~= word@);
    true
}

/// A longer run of digits is worth at least as much as its start.
proof fn lemma_decimal_value_grows(s: Seq<char>, i: int)
    requires
        0 <= i <= s.len(),
        forall|k: int| 0 <= k < s.len() ==> is_digit(#[trigger] s[k]),
    ensures
        0 <= decimal_value(s.take(i)) <= decimal_value(s),
    decreases s.len(),
{
    if s.len() > 0 {
        assert(forall|k: int| 0 <= k < s.drop_last().len() ==> s.drop_last()[k] == s[k]);
        if i < s.len() {
            assert(s.drop_last().take(i) =~= s.take(i));
            lemma_decimal_value_grows(s.drop_last(), i);
        } else {
            assert(s.take(i) =~= s);
            lemma_decimal_value_grows(s.drop_last(), i - 1);
            assert(s.drop_last().take(i - 1) =~= s.drop_last());
        }
        assert(is_digit(s.last()));
    } else {
        assert(s.take(i) =~= s);
    }
}

/// The amount written in `a`, if it can be bet.
pub fn parse_wager(a: &str) -> (r: Option<u64>)
    ensures
        r == (if is_wager_text(a@) {
            Some(decimal_value(amount_digits(a@)) as u64)
        } else {
            None
        }),
        r matches Some(w) ==> w <= MAX_WAGER,
{
    let n = a.unicode_len();
    let start: usize = if n > 0 && a.get_char(0) == '+' {
        1
    } else {
        0
    };
    let ghost d = amount_digits(a@);
    assert(d =~= a@.subrange(start as int, n as int));
    if start == n {
        return None;
    }
    let mut value: u64 = 0;
    let mut i: usize = start;
    while i < n
        invariant
            n == a@.len(),
            d == a@.subrange(start as int, n as int),
            d == amount_digits(a@),
            start <= i <= n,
            forall|k: int| 0 <= k < i - start ==> is_digit(#[trigger] d[k]),
            value == decimal_value(d.take(i - start)),
            value <= MAX_WAGER,
        decreases n - i,
    {
        let c = a.get_char(i);
        assert(d[i - start] == c);
        if c < '0' || c > '9' {
            assert(!is_digit(d[i - start]));
            return None;
        }
        let dv: u64 = ((c as u32) - ('0' as u32)) as u64;
        assert(d.take(i - start + 1).drop_last() =~= d.take(i - start));
        assert(decimal_value(d.take(i - start + 1)) == value * 10 + dv);
        if value > (MAX_WAGER - dv) / 10 {
            assert(value * 10 + dv > MAX_WAGER) by (nonlinear_arith)
                requires
                    value > (MAX_WAGER - dv) / 10,
                    dv <= 9,
            ;
            proof {
                if forall|k: int| 0 <= k < d.len() ==> is_digit(#[trigger] d[k]) {
                    lemma_decimal_value_grows(d, i - start + 1);
                    assert(decimal_value(d) > MAX_WAGER);
                }
            }
            assert(!is_wager_text(a@));
            return None;
        }
        assert(value * 10 + dv <= MAX_WAGER) by (nonlinear_arith)
            requires
                value <= (MAX_WAGER - dv) / 10,
                dv <= 9,
        ;
        value = value * 10 + dv;
        i = i + 1;
    }
    assert(d.take(n - start) =~= d);
    Some(value)
}

/// Reads a command from text that is already in lower case.
pub fn parse_command(s: &str) -> (r: Command)
    ensures
        r == command_of(s@),
        r matches Command::Bet(w) ==> w <= MAX_WAGER,
{
    let n = s.unicode_len();
    let k = find_word_end(s, 0);
    if spells(s, 0, k, "bet") {
        if k < n {
            let e = find_word_end(s, k + 1);
            match parse_wager(s.substring_char(k + 1, e)) {
                Some(w) => Command::Bet(w),
                None => Command::InvalidBet,
            }
        } else {
            Command::InvalidBet
        }
    } else if spells(s, 0, k, "hit") {
        Command::Hit
    } else if spells(s, 0, k, "stay") {
        Command::Stay
    } else {
        Command::Unknown
    }
}

} // verus!
