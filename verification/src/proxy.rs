use vstd::prelude::*;

use crate::text::{decimal, decimal_string, digit_char, push_char, str_eq};

verus! {

/// The endpoints of the topic manager service.
#[derive(Debug, Clone, Copy, PartialEq, Eq, Structural)]
pub enum ProxyRoute {
    HealthCheck,
    CreateTopic,
    AddPartition,
    NotFound,
}

/// The endpoint for a request method and path.
pub open spec fn proxy_route_of(method: Seq<char>, path: Seq<char>) -> ProxyRoute {
    if method == "GET"@ && path == "/health_check"@ {
        ProxyRoute::HealthCheck
    } else if method == "POST"@ && path == "/create_topic"@ {
        ProxyRoute::CreateTopic
    } else if method == "POST"@ && path == "/add_partition"@ {
        ProxyRoute::AddPartition
    } else {
        ProxyRoute::NotFound
    }
}

/// Picks the endpoint for a request to the topic manager.
pub fn proxy_route(method: &str, path: &str) -> (r: ProxyRoute)
    ensures
        r == proxy_route_of(method@, path@),
{
    if str_eq(method, "GET") && str_eq(path, "/health_check") {
        ProxyRoute::HealthCheck
    } else if str_eq(method, "POST") && str_eq(path, "/create_topic") {
        ProxyRoute::CreateTopic
    } else if str_eq(method, "POST") && str_eq(path, "/add_partition") {
        ProxyRoute::AddPartition
    } else {
        ProxyRoute::NotFound
    }
}

/// The body of a successful response: `{"data": <value>}`.
pub fn success_body(value: &str) -> (r: String)
    ensures
        r@ == "{\"data\": "@ + value@ + "}"@,
{
    let mut r = String::new();
    r.append("{\"data\": ");
    r.append(value);
    r.append("}");
    r
}

/// The body of an error response: `{"error": "<error>"}`.
pub fn error_body(error: &str) -> (r: String)
    ensures
        r@ == "{\"error\": \""@ + error@ + "\"}"@,
{
    let mut r = String::new();
    r.append("{\"error\": \"");
    r.append(error);
    r.append("\"}");
    r
}

/// The partition count after one more partition is added to every topic.
pub fn next_partition_count(current_count: u32) -> (r: u32)
    requires
        current_count < u32::MAX,
    ensures
        r == current_count + 1,
{
    current_count + 1
}

/// The topics whose partitions grow together, in the order they are altered.
pub open spec fn partition_topics() -> Seq<Seq<char>> {
    seq!["host_tick"@, "peer_tick"@, "heart_beat"@, "session"@]
}

/// The `i`-th topic whose partitions grow.
pub fn partition_topic(i: usize) -> (t: &'static str)
    requires
        i < 4,
    ensures
        t@ == partition_topics()[i as int],
{
    if i == 0 {
        "host_tick"
    } else if i == 1 {
        "peer_tick"
    } else if i == 2 {
        "heart_beat"
    } else {
        "session"
    }
}

/// Where adding a partition to every topic stands: the highest partition count read before,
/// and how many topics have been altered since.
#[derive(Debug, Clone, Copy, PartialEq, Eq)]
pub struct PartitionGrowth {
    pub current_count: u32,
    pub altered: usize,
}

/// What the topic manager does next while adding a partition.
#[derive(Debug)]
pub enum GrowthStep {
    /// set the number of partitions of this topic to this count
    Alter(&'static str, u32),
    /// answer the request with this status and body
    Answer(u16, String),
}

/// The body of an error response, as `error_body` writes it.
pub open spec fn error_text(error: Seq<char>) -> Seq<char> {
    "{\"error\": \""@ + error + "\"}"@
}

/// The body of a successful response, as `success_body` writes it.
pub open spec fn success_text(value: Seq<char>) -> Seq<char> {
    "{\"data\": "@ + value + "}"@
}

/// The first step of adding a partition, once the highest partition count has been read
/// (`None` when it could not be read): without a count the request fails with status 500;
/// with count `c` the first topic is altered to `c + 1` partitions.
pub fn begin_partition_growth(count: Option<u32>) -> (r: (PartitionGrowth, GrowthStep))
    requires
        count != Some(u32::MAX),
    ensures
        match count {
            None => r.1 matches GrowthStep::Answer(status, body) && status == 500 && body@
                == error_text("Failed to retrieve max partition count."@),
            Some(c) => {
                &&& r.0 == PartitionGrowth { current_count: c, altered: 0 }
                &&& r.1 matches GrowthStep::Alter(t, n) && t@ == partition_topics()[0] && n == c + 1
            },
        },
{
    match count {
        None => (
            PartitionGrowth { current_count: 0, altered: 0 },
            GrowthStep::Answer(500, error_body("Failed to retrieve max partition count.")),
        ),
        Some(c) => (
            PartitionGrowth { current_count: c, altered: 0 },
            GrowthStep::Alter(partition_topic(0), next_partition_count(c)),
        ),
    }
}

/// The next step of adding a partition, once the alteration of topic number
/// `state.altered` has ended: `outcome` holds the description of its failure, if it failed.
/// A failure ends the request with status 500 and the topics after it are left alone;
/// otherwise the next topic is altered, and after the last one the request succeeds with
/// the count read before, the highest partition number after the growth.
pub fn continue_partition_growth(state: PartitionGrowth, outcome: Result<(), String>) -> (r: (
    PartitionGrowth,
    GrowthStep,
))
    requires
        state.altered < 4,
        state.current_count < u32::MAX,
    ensures
        match outcome {
            Err(e) => r.1 matches GrowthStep::Answer(status, body) && status == 500 && body@
                == error_text("Failed to update the partition count: "@ + e@),
            Ok(_) => if state.altered + 1 < 4 {
                &&& r.0.current_count == state.current_count
                &&& r.0.altered == state.altered + 1
                &&& r.1 matches GrowthStep::Alter(t, n) && t@ == partition_topics()[state.altered + 1]
                    && n == state.current_count + 1
            } else {
                &&& r.0 == state
                &&& r.1 matches GrowthStep::Answer(status, body) && status == 200 && body@
                    == success_text(decimal(state.current_count as nat))
            },
        },
{
    match outcome {
        Err(e) => {
            let mut message = String::new();
            message.append("Failed to update the partition count: ");
            message.append(e.as_str());
            (state, GrowthStep::Answer(500, error_body(message.as_str())))
        },
        Ok(_) => if state.altered + 1 < 4 {
            let next = PartitionGrowth {
                current_count: state.current_count,
                altered: state.altered + 1,
            };
            (next, GrowthStep::Alter(partition_topic(next.altered), next_partition_count(state.current_count)))
        } else {
            let count = decimal_string(state.current_count);
            (state, GrowthStep::Answer(200, success_body(count.as_str())))
        },
    }
}

/// Whether `c` is white space as the Unicode `White_Space` property defines it (the
/// characters that `char::is_whitespace` accepts and `str::trim` removes).
pub open spec fn is_white_space(c: char) -> bool {
    let u = c as u32;
    ||| 9 <= u <= 13
    ||| u == 0x20
    ||| u == 0x85
    ||| u == 0xA0
    ||| u == 0x1680
    ||| 0x2000 <= u <= 0x200A
    ||| u == 0x2028
    ||| u == 0x2029
    ||| u == 0x202F
    ||| u == 0x205F
    ||| u == 0x3000
}

/// `s` without its leading white space.
pub open spec fn trim_start(s: Seq<char>) -> Seq<char>
    decreases s.len(),
{
    if s.len() > 0 && is_white_space(s[0]) {
        trim_start(s.skip(1))
    } else {
        s
    }
}

/// `s` without its trailing white space.
pub open spec fn trim_end(s: Seq<char>) -> Seq<char>
    decreases s.len(),
{
    if s.len() > 0 && is_white_space(s.last()) {
        trim_end(s.drop_last())
    } else {
        s
    }
}

/// `s` without its leading and trailing white space, as `str::trim` returns it.
pub open spec fn trimmed(s: Seq<char>) -> Seq<char> {
    trim_end(trim_start(s))
}

fn white_space(c: char) -> (r: bool)
    ensures
        r == is_white_space(c),
{
    let u = c as u32;
    (9 <= u && u <= 13) || u == 0x20 || u == 0x85 || u == 0xA0 || u == 0x1680 || (0x2000 <= u
        && u <= 0x200A) || u == 0x2028 || u == 0x2029 || u == 0x202F || u == 0x205F || u == 0x3000
}

/// Removes the leading and trailing white space of `s`.
fn trim(s: &str) -> (r: &str)
    ensures
        r@ == trimmed(s@),
{
    let n = s.unicode_len();
    let mut i: usize = 0;
    proof {
        assert(s@.skip(0) == s@);
    }
    while i < n && white_space(s.get_char(i))
        invariant
            n == s@.len(),
            0 <= i <= n,
            trim_start(s@) == trim_start(s@.skip(i as int)),
        decreases n - i,
    {
        proof {
            assert(s@.skip(i as int)[0] == s@[i as int]);
            assert(s@.skip(i as int).skip(1) == s@.skip(i + 1));
        }
        i = i + 1;
    }
    proof {
        if i < n {
            assert(s@.skip(i as int)[0] == s@[i as int]);
        } else {
            assert(s@.skip(i as int).len() == 0);
        }
        assert(trim_start(s@) == s@.skip(i as int));
        assert(s@.skip(i as int) == s@.subrange(i as int, n as int));
    }
    let mut j: usize = n;
    while j > i && white_space(s.get_char(j - 1))
        invariant
            n == s@.len(),
            i <= j <= n,
            trimmed(s@) == trim_end(s@.subrange(i as int, j as int)),
        decreases j,
    {
        proof {
            assert(s@.subrange(i as int, j as int).last() == s@[j - 1]);
            assert(s@.subrange(i as int, j as int).drop_last() == s@.subrange(i as int, j - 1));
        }
        j = j - 1;
    }
    proof {
        if j > i {
            assert(s@.subrange(i as int, j as int).last() == s@[j - 1]);
        }
    }
    s.substring_char(i, j)
}

/// `s` without its newline characters.
pub open spec fn without_newlines(s: Seq<char>) -> Seq<char>
    decreases s.len(),
{
    if s.len() == 0 {
        Seq::empty()
    } else if s.last() == '\n' {
        without_newlines(s.drop_last())
    } else {
        without_newlines(s.drop_last()).push(s.last())
    }
}

/// The value of a sequence of decimal digits.
pub open spec fn digits_value(s: Seq<char>) -> int
    decreases s.len(),
{
    if s.len() == 0 {
        0
    } else {
        digits_value(s.drop_last()) * 10 + (s.last() as int - '0' as int)
    }
}

pub open spec fn is_digit(c: char) -> bool {
    '0' <= c && c <= '9'
}

/// The digits after an optional leading `+`.
pub open spec fn unsigned_digits(s: Seq<char>) -> Seq<char> {
    if s.len() > 0 && s[0] == '+' {
        s.skip(1)
    } else {
        s
    }
}

/// What `u32::from_str` accepts: an optional `+`, then at least one decimal digit and
/// nothing else, with a value that fits in 32 bits; `None` for everything else.
pub open spec fn parsed_u32(s: Seq<char>) -> Option<u32> {
    let d = unsigned_digits(s);
    if d.len() > 0 && (forall|i: int| 0 <= i < d.len() ==> is_digit(#[trigger] d[i]))
        && digits_value(d) <= u32::MAX {
        Some(digits_value(d) as u32)
    } else {
        None
    }
}

/// Parses a decimal `u32` the way `u32::from_str` does.
pub fn parse_u32(s: &str) -> (r: Option<u32>)
    ensures
        r == parsed_u32(s@),
{
    let n = s.unicode_len();
    let mut start: usize = 0;
    if n > 0 && s.get_char(0) == '+' {
        start = 1;
    }
    let ghost d = unsigned_digits(s@);
    proof {
        assert(d == s@.skip(start as int));
    }
    if start == n {
        return None;
    }
    let mut value: u64 = 0;
    let mut k: usize = start;
    while k < n
        invariant
            n == s@.len(),
            start <= k <= n,
            d == s@.skip(start as int),
            d == unsigned_digits(s@),
            forall|i: int| 0 <= i < k - start ==> is_digit(#[trigger] d[i]),
            value == digits_value(d.take(k - start)),
            value <= u32::MAX,
        decreases n - k,
    {
        let c = s.get_char(k);
        proof {
            assert(d[k - start] == c);
            assert(d.take(k - start + 1).drop_last() == d.take(k - start));
        }
        if !('0' <= c && c <= '9') {
            proof {
                let j = k - start;
                assert(0 <= j < d.len());
                assert(!is_digit(d[j]));
                assert(!(forall|i: int| 0 <= i < d.len() ==> is_digit(#[trigger] d[i])));
            }
            return None;
        }
        let digit = (c as u32 - '0' as u32) as u64;
        value = value * 10 + digit;
        if value > 4294967295u64 {
            proof {
                if forall|i: int| 0 <= i < d.len() ==> is_digit(#[trigger] d[i]) {
                    lemma_digits_value_grows(d, (k - start + 1) as int);
                }
            }
            return None;
        }
        k = k + 1;
    }
    proof {
        assert(d.take(k - start) == d);
    }
    Some(value as u32)
}

/// Appending digits never makes the value smaller.
proof fn lemma_digits_value_grows(d: Seq<char>, m: int)
    requires
        0 <= m <= d.len(),
        forall|i: int| 0 <= i < d.len() ==> is_digit(#[trigger] d[i]),
    ensures
        digits_value(d) >= digits_value(d.take(m)),
        digits_value(d.take(m)) >= 0,
    decreases d.len() - m,
{
    lemma_digits_value_nonneg(d.take(m));
    if m < d.len() {
        lemma_digits_value_grows(d, m + 1);
        assert(d.take(m + 1).drop_last() == d.take(m));
        assert(is_digit(d[m]));
    } else {
        assert(d.take(m) == d);
    }
}

proof fn lemma_digits_value_nonneg(d: Seq<char>)
    requires
        forall|i: int| 0 <= i < d.len() ==> is_digit(#[trigger] d[i]),
    ensures
        digits_value(d) >= 0,
    decreases d.len(),
{
    if d.len() > 0 {
        assert forall|i: int| 0 <= i < d.drop_last().len() implies is_digit(
            #[trigger] d.drop_last()[i],
        ) by {
            assert(d.drop_last()[i] == d[i]);
        }
        lemma_digits_value_nonneg(d.drop_last());
        assert(is_digit(d.last()));
    }
}

/// Removes every newline from `s`.
pub fn remove_newlines(s: &str) -> (r: String)
    ensures
        r@ == without_newlines(s@),
{
    let n = s.unicode_len();
    let mut r = String::new();
    let mut k: usize = 0;
    while k < n
        invariant
            n == s@.len(),
            0 <= k <= n,
            r@ == without_newlines(s@.take(k as int)),
        decreases n - k,
    {
        let c = s.get_char(k);
        proof {
            assert(s@.take(k + 1).drop_last() == s@.take(k as int));
        }
        if c != '\n' {
            push_char(&mut r, c);
        }
        k = k + 1;
    }
    proof {
        assert(s@.take(k as int) == s@);
    }
    r
}

/// The highest partition count in the output of the topic listing command: the output
/// trimmed, its newlines removed, parsed as a `u32`; `None` when that fails.
pub fn parse_partition_count(output: &str) -> (r: Option<u32>)
    ensures
        r == parsed_u32(without_newlines(trimmed(output@))),
{
    let cleaned = remove_newlines(trim(output));
    parse_u32(cleaned.as_str())
}

/// Reading back the decimal representation of a number gives the number.
pub proof fn lemma_parse_decimal(n: u32)
    ensures
        parsed_u32(decimal(n as nat)) == Some(n),
{
    lemma_decimal_digits(n as nat);
    let d = decimal(n as nat);
    assert(d[0] != '+') by {
        lemma_decimal_digits(n as nat);
    }
    assert(unsigned_digits(d) == d);
}

proof fn lemma_digit_char(d: nat)
    requires
        d < 10,
    ensures
        digit_char(d) as int - '0' as int == d,
        is_digit(digit_char(d)),
{
}

proof fn lemma_decimal_digits(n: nat)
    ensures
        decimal(n).len() > 0,
        forall|i: int| 0 <= i < decimal(n).len() ==> is_digit(#[trigger] decimal(n)[i]),
        digits_value(decimal(n)) == n,
    decreases n,
{
    lemma_digit_char(n % 10);
    if n < 10 {
        let d = decimal(n);
        assert(d.drop_last() == Seq::<char>::empty());
        assert(d.last() == digit_char(n));
        assert(digits_value(d) == digits_value(d.drop_last()) * 10 + (d.last() as int - '0' as int));
        assert(n % 10 == n);
    } else {
        lemma_decimal_digits(n / 10);
        let d = decimal(n);
        assert(d.drop_last() == decimal(n / 10));
        assert(n == (n / 10) * 10 + n % 10);
        assert(d.last() == digit_char(n % 10));
        assert(digits_value(d) == digits_value(d.drop_last()) * 10 + (d.last() as int - '0' as int));
        assert forall|i: int| 0 <= i < d.len() implies is_digit(#[trigger] d[i]) by {
            if i < d.len() - 1 {
                assert(d[i] == decimal(n / 10)[i]);
            }
        }
    }
}

/// A text without newlines keeps all its characters when its newlines are removed.
proof fn lemma_without_newlines_keeps(s: Seq<char>)
    requires
        forall|i: int| 0 <= i < s.len() ==> #[trigger] s[i] != '\n',
    ensures
        without_newlines(s) == s,
    decreases s.len(),
{
    if s.len() > 0 {
        assert forall|i: int| 0 <= i < s.drop_last().len() implies #[trigger] s.drop_last()[i]
            != '\n' by {
            assert(s.drop_last()[i] == s[i]);
        }
        lemma_without_newlines_keeps(s.drop_last());
        assert(s.drop_last().push(s.last()) == s);
    }
}

/// A partition count that the listing command prints on a line of its own is read back:
/// its decimal digits followed by a newline parse to the count.
pub proof fn lemma_count_line_parses(n: u32)
    ensures
        parsed_u32(without_newlines(trimmed(decimal(n as nat) + "\n"@))) == Some(n),
{
    reveal_strlit("\n");
    let d = decimal(n as nat);
    lemma_decimal_digits(n as nat);
    let line = d + "\n"@;
    assert(line[0] == d[0]);
    assert(is_digit(d[0]));
    assert(trim_start(line) == line);
    assert(line.last() == '\n');
    assert(line.drop_last() == d);
    assert(is_digit(d.last()));
    assert(trim_end(d) == d);
    assert(trim_end(line) == d);
    assert forall|i: int| 0 <= i < d.len() implies #[trigger] d[i] != '\n' by {
        assert(is_digit(d[i]));
    }
    lemma_without_newlines_keeps(d);
    lemma_parse_decimal(n);
}

/// A number written in decimal the plain way: at least one digit, only digits, and no
/// leading zero unless the number is zero itself.
pub open spec fn is_plain_decimal(t: Seq<char>) -> bool {
    &&& t.len() > 0
    &&& forall|i: int| 0 <= i < t.len() ==> is_digit(#[trigger] t[i])
    &&& t[0] == '0' ==> t.len() == 1
}

/// The decimal representation of a number is written the plain way.
pub proof fn lemma_decimal_is_plain(n: nat)
    ensures
        is_plain_decimal(decimal(n)),
    decreases n,
{
    lemma_decimal_digits(n);
    if n >= 10 {
        lemma_decimal_is_plain(n / 10);
        lemma_decimal_digits(n / 10);
        assert(decimal(n)[0] == decimal(n / 10)[0]);
        if decimal(n / 10)[0] == '0' {
            assert(decimal(n / 10).len() == 1);
            let d = decimal(n / 10);
            assert(d.drop_last() =~= Seq::<char>::empty());
            assert(d.last() == '0');
            assert(digits_value(d) == digits_value(d.drop_last()) * 10 + (d.last() as int - '0' as int));
        }
    }
}

} // verus!
