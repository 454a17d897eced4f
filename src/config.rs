use vstd::prelude::*;

verus! {

/// Why a benchmark could not be configured.
#[derive(Clone, Copy, Debug, PartialEq, Eq, Structural)]
pub enum ConfigError {
    /// An argument is missing or is not a non-negative integer.
    Usage,
    /// A ring needs at least two nodes.
    TooFewNodes,
}

/// The two parameters of a run: the ring's size and how many tokens each
/// node forwards before it forces termination.
#[derive(Clone, Copy, Debug, PartialEq, Eq, Structural)]
pub struct RingConfig {
    pub num_nodes: usize,
    pub num_times: usize,
}

/// Whether `c` is an ASCII decimal digit.
pub open spec fn is_digit(c: char) -> bool {
    '0' <= c && c <= '9'
}

/// Whether every character of `s` is a decimal digit.
pub open spec fn all_digits(s: Seq<char>) -> bool {
    forall|i: int| 0 <= i < s.len() ==> #[trigger] is_digit(s[i])
}

/// The number that a string of decimal digits spells.
pub open spec fn digits_value(s: Seq<char>) -> int
    decreases s.len(),
{
    if s.len() == 0 {
        0
    } else {
        digits_value(s.drop_last()) * 10 + (s.last() as int - '0' as int)
    }
}

/// The digits of a count: the text after one optional leading `+`.
pub open spec fn count_digits(s: Seq<char>) -> Seq<char> {
    if s.len() > 0 && s[0] == '+' {
        s.drop_first()
    } else {
        s
    }
}

/// The count that a command-line argument spells: one or more decimal digits,
/// after an optional `+`, whose value fits in `usize`.
pub open spec fn parsed_count(s: Seq<char>) -> Option<usize> {
    let d = count_digits(s);
    if d.len() > 0 && all_digits(d) && digits_value(d) <= usize::MAX {
        Some(digits_value(d) as usize)
    } else {
        None
    }
}

/// A prefix of a digit string spells no more than the whole string.
proof fn lemma_prefix_value_le(s: Seq<char>, k: int)
    requires
        0 <= k <= s.len(),
        forall|i: int| 0 <= i < s.len() ==> #[trigger] is_digit(s[i]),
    ensures
        digits_value(s.subrange(0, k)) <= digits_value(s),
    decreases s.len(),
{
    if k < s.len() {
        let t = s.drop_last();
        assert(forall|i: int| 0 <= i < t.len() ==> #[trigger] is_digit(t[i])) by {
            assert(forall|i: int| 0 <= i < t.len() ==> t[i] == s[i]);
        }
        lemma_prefix_value_le(t, k);
        assert(t.subrange(0, k) =~= s.subrange(0, k));
        assert(is_digit(s[s.len() - 1]));
        lemma_value_nonneg(t);
        assert(digits_value(t) <= digits_value(t) * 10) by (nonlinear_arith)
            requires digits_value(t) >= 0;
    } else {
        assert(s.subrange(0, k) =~= s);
    }
}

/// A digit string spells a non-negative number.
proof fn lemma_value_nonneg(s: Seq<char>)
    requires
        forall|i: int| 0 <= i < s.len() ==> #[trigger] is_digit(s[i]),
    ensures
        digits_value(s) >= 0,
    decreases s.len(),
{
    if s.len() > 0 {
        let t = s.drop_last();
        assert(forall|i: int| 0 <= i < t.len() ==> t[i] == s[i]);
        lemma_value_nonneg(t);
        assert(is_digit(s[s.len() - 1]));
    }
}

/// Reads a count as written on the command line.
pub fn parse_count(s: &str) -> (r: Option<usize>)
    ensures
        r == parsed_count(s@),
{
    let len = s.unicode_len();
    let mut start: usize = 0;
    if len > 0 && s.get_char(0) == '+' {
        start = 1;
    }
    let ghost d = count_digits(s@);
    assert(d =~= s@.subrange(start as int, len as int));
    if start == len {
        return None;
    }
    let mut acc: usize = 0;
    let mut i: usize = start;
    while i < len
        invariant
            len == s@.len(),
            start <= i <= len,
            d == count_digits(s@),
            d == s@.subrange(start as int, len as int),
            forall|j: int| start <= j < i ==> #[trigger] is_digit(s@[j]),
            acc == digits_value(s@.subrange(start as int, i as int)),
        decreases len - i,
    {
        let c = s.get_char(i);
        let ghost pre = s@.subrange(start as int, i as int);
        let ghost next = s@.subrange(start as int, i + 1);
        assert(next.drop_last() =~= pre);
        if !('0' <= c && c <= '9') {
            assert(d[i - start] == s@[i as int]);
            assert(!is_digit(d[i - start]));
            assert(!all_digits(d));
            return None;
        }
        let digit = (c as u32 - '0' as u32) as usize;
        if acc > (usize::MAX - digit) / 10 {
            proof {
                assert(next.last() == c);
                assert(acc * 10 + digit > usize::MAX) by (nonlinear_arith)
                    requires acc > (usize::MAX - digit) / 10, digit <= 9;
                assert(digits_value(next) > usize::MAX);
                if all_digits(d) {
                    lemma_prefix_value_le(d, i + 1 - start);
                    assert(d.subrange(0, i + 1 - start) =~= next);
                }
            }
            return None;
        }
        acc = acc * 10 + digit;
        i = i + 1;
    }
    assert(s@.subrange(start as int, i as int) =~= d);
    Some(acc)
}

/// The configuration that a command line spells: the program name, then the
/// node count, then the message count.
pub open spec fn parsed_args(args: Seq<Seq<char>>) -> Result<RingConfig, ConfigError> {
    if args.len() < 3 {
        Err(ConfigError::Usage)
    } else {
        match parsed_count(args[1]) {
            None => Err(ConfigError::Usage),
            Some(n) => if n <= 1 {
                Err(ConfigError::TooFewNodes)
            } else {
                match parsed_count(args[2]) {
                    None => Err(ConfigError::Usage),
                    Some(m) => Ok(RingConfig { num_nodes: n, num_times: m }),
                }
            },
        }
    }
}

/// Reads the command line: `<num-nodes> <num-times-message-around-ring>`
/// after the program name. Further arguments are ignored.
pub fn parse_args(args: &Vec<String>) -> (r: Result<RingConfig, ConfigError>)
    ensures
        r == parsed_args(args@.map_values(|a: String| a@)),
{
    let ghost views = args@.map_values(|a: String| a@);
    if args.len() < 3 {
        return Err(ConfigError::Usage);
    }
    assert(views[1] == args@[1]@);
    assert(views[2] == args@[2]@);
    let n = match parse_count(args[1].as_str()) {
        Some(n) => n,
        None => return Err(ConfigError::Usage),
    };
    if n <= 1 {
        return Err(ConfigError::TooFewNodes);
    }
    match parse_count(args[2].as_str()) {
        Some(m) => Ok(RingConfig { num_nodes: n, num_times: m }),
        None => Err(ConfigError::Usage),
    }
}

impl RingConfig {
    /// A configuration that describes a real ring.
    pub open spec fn wf(self) -> bool {
        self.num_nodes > 1
    }

    /// Checks the parameters: fewer than two nodes make no ring.
    pub fn new(num_nodes: usize, num_times: usize) -> (r: Result<RingConfig, ConfigError>)
        ensures
            num_nodes > 1 ==> r == Ok::<RingConfig, ConfigError>(RingConfig { num_nodes, num_times }),
            num_nodes <= 1 ==> r == Err::<RingConfig, ConfigError>(ConfigError::TooFewNodes),
    {
        if num_nodes <= 1 {
            Err(ConfigError::TooFewNodes)
        } else {
            Ok(RingConfig { num_nodes, num_times })
        }
    }

    /// Capacity of every channel of the run: the message count, so that a
    /// full circuit never stalls, but at least one.
    pub fn channel_capacity(&self) -> (r: usize)
        ensures
            r == (if self.num_times == 0 { 1 } else { self.num_times }),
            r >= 1,
            r >= self.num_times,
    {
        if self.num_times == 0 {
            1
        } else {
            self.num_times
        }
    }
}

} // verus!
