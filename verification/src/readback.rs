//! What the printed texts say to a reader.
//!
//! The readers here take a text apart without regard to how it was put together.

#[allow(unused_imports)]
use crate::accuracy::{lemma_shown_number, number_tells, thousands, total_nanos};
#[allow(unused_imports)]
use crate::bitrate::{
    bitrate_text, bits_per_second_spec, decimals_spec, fixed_point, power_of_ten, rate_text,
    settled, unit_name_spec,
};
#[allow(unused_imports)]
use crate::args::{
    congestion_text, handshakes_text, mode_text, target_text, ClientArgs, ServerArgs,
};
#[allow(unused_imports)]
use crate::client::{client_report, ClientMetrics};
#[allow(unused_imports)]
use crate::connection::SendMode;
#[allow(unused_imports)]
use crate::double::{rounded_multiple, Dyadic};
#[allow(unused_imports)]
use crate::server::{server_report, ServerMetrics};
#[allow(unused_imports)]
use crate::size::{digits_value, is_digit, law_decimal_denotes, law_digit_appended};
#[allow(unused_imports)]
use crate::text::{decimal, digit_char};
use vstd::prelude::*;

verus! {

/// How many digits the text starts with.
pub open spec fn leading_digits(s: Seq<char>) -> nat
    decreases s.len(),
{
    if s.len() > 0 && is_digit(s[0]) {
        1 + leading_digits(s.skip(1))
    } else {
        0
    }
}

/// A number with a unit behind it, taken apart.
pub struct Reading {
    /// The digits of the number, without the point.
    pub digits: Seq<char>,
    /// How many of them stand behind the point.
    pub decimals: nat,
    /// What stands behind the number.
    pub unit: Seq<char>,
}

/// Takes a number with a unit apart.
pub open spec fn read_number(text: Seq<char>) -> Reading {
    let whole = leading_digits(text) as int;
    let rest = text.skip(whole);
    if rest.len() > 0 && rest[0] == '.' {
        let part = leading_digits(rest.skip(1)) as int;
        Reading {
            digits: text.take(whole) + rest.skip(1).take(part),
            decimals: part as nat,
            unit: rest.skip(1).skip(part),
        }
    } else {
        Reading { digits: text.take(whole), decimals: 0, unit: rest }
    }
}

/// `10^decimals`.
pub open spec fn ten_to(decimals: nat) -> nat
    decreases decimals,
{
    if decimals == 0 {
        1
    } else {
        10 * ten_to((decimals - 1) as nat)
    }
}

/// The bits per second that a unit stands for, zero for what is no unit.
pub open spec fn unit_bits(unit: Seq<char>) -> nat {
    if unit == "bps"@ {
        1
    } else if unit == "Kbps"@ {
        1_000
    } else if unit == "Mbps"@ {
        1_000_000
    } else if unit == "Gbps"@ {
        1_000_000_000
    } else if unit == "Tbps"@ {
        1_000_000_000_000
    } else {
        0
    }
}

/// The text tells a reader how fast `bytes` bytes went over in `total` nanoseconds. The
/// number is off by at most half a unit of its last digit, and `2^-49` of the rate. It
/// has no superfluous zeros. Plain bits per second are shown without decimals; in a
/// larger unit the number has three significant digits, or four where rounding has made
/// it a round thousand, and only in the largest unit it may have more.
pub open spec fn tells_rate(text: Seq<char>, bytes: nat, total: nat) -> bool {
    let r = read_number(text);
    let n = digits_value(r.digits);
    let bits = unit_bits(r.unit);
    &&& bits > 0
    &&& r.digits.len() > r.decimals
    &&& forall|i: int| 0 <= i < r.digits.len() ==> is_digit(#[trigger] r.digits[i])
    &&& r.digits.len() > r.decimals + 1 ==> r.digits[0] != '0'
    &&& number_tells(n, ten_to(r.decimals), bits, bytes, total)
    &&& bits == 1 ==> r.decimals == 0
    &&& bits > 1 ==> n >= 100
    &&& r.decimals > 0 || bits < 1_000_000_000_000 ==> n <= 1000
}

proof fn lemma_leading_digits_of_two(a: Seq<char>, b: Seq<char>)
    requires
        forall|i: int| 0 <= i < a.len() ==> is_digit(#[trigger] a[i]),
        b.len() > 0 ==> !is_digit(b[0]),
    ensures
        leading_digits(a + b) == a.len(),
    decreases a.len(),
{
    if a.len() == 0 {
        assert(a + b =~= b);
    } else {
        assert((a + b).skip(1) =~= a.skip(1) + b);
        assert forall|i: int| 0 <= i < a.skip(1).len() implies is_digit(#[trigger] a.skip(1)[i]) by {
            assert(a.skip(1)[i] == a[i + 1]);
        }
        lemma_leading_digits_of_two(a.skip(1), b);
    }
}

/// A number with its unit is read as it was written.
proof fn lemma_read_whole(whole: Seq<char>, unit: Seq<char>)
    requires
        forall|i: int| 0 <= i < whole.len() ==> is_digit(#[trigger] whole[i]),
        unit.len() > 0,
        !is_digit(unit[0]),
        unit[0] != '.',
    ensures
        read_number(whole + unit) == (Reading { digits: whole, decimals: 0, unit }),
{
    lemma_leading_digits_of_two(whole, unit);
    assert((whole + unit).take(whole.len() as int) =~= whole);
    assert((whole + unit).skip(whole.len() as int) =~= unit);
}

proof fn lemma_read_parts(whole: Seq<char>, part: Seq<char>, unit: Seq<char>)
    requires
        forall|i: int| 0 <= i < whole.len() ==> is_digit(#[trigger] whole[i]),
        forall|i: int| 0 <= i < part.len() ==> is_digit(#[trigger] part[i]),
        unit.len() > 0,
        !is_digit(unit[0]),
    ensures
        read_number(whole + seq!['.'] + part + unit) == (Reading {
            digits: whole + part,
            decimals: part.len(),
            unit,
        }),
{
    let text = whole + seq!['.'] + part + unit;
    let rest = seq!['.'] + (part + unit);
    assert(text =~= whole + rest);
    lemma_leading_digits_of_two(whole, rest);
    assert(text.take(whole.len() as int) =~= whole);
    assert(text.skip(whole.len() as int) =~= rest);
    assert(rest.skip(1) =~= part + unit);
    lemma_leading_digits_of_two(part, unit);
    assert((part + unit).take(part.len() as int) =~= part);
    assert((part + unit).skip(part.len() as int) =~= unit);
}

proof fn lemma_unit_names(u: nat)
    requires
        u <= 4,
    ensures
        unit_bits(unit_name_spec(u)) == thousands(u),
        unit_name_spec(u).len() > 0,
        !is_digit(unit_name_spec(u)[0]),
        unit_name_spec(u)[0] != '.',
        forall|i: int| 0 <= i < unit_name_spec(u).len() ==> #[trigger] unit_name_spec(u)[i] != ' ',
{
    reveal_strlit("bps");
    reveal_strlit("Kbps");
    reveal_strlit("Mbps");
    reveal_strlit("Gbps");
    reveal_strlit("Tbps");
    reveal_with_fuel(thousands, 5);
    assert("Kbps"@[0] == 'K' && "Mbps"@[0] == 'M' && "Gbps"@[0] == 'G' && "Tbps"@[0] == 'T');
    assert("bps"@.len() == 3);
}

/// Whatever was sent in whatever time, the text that is shown tells the rate.
pub proof fn law_text_tells_the_rate(bytes: nat, secs: nat, nanos: nat)
    requires
        secs > 0 || nanos > 0,
        nanos < 1_000_000_000,
    ensures
        tells_rate(bitrate_text(bytes, secs, nanos), bytes, secs * 1_000_000_000 + nanos),
{
    let text = bitrate_text(bytes, secs, nanos);
    if bytes == 0 {
        reveal_strlit("0bps");
        reveal_strlit("bps");
        let zero = seq!['0'];
        assert("0bps"@ =~= zero + "bps"@);
        lemma_unit_names(0);
        lemma_read_whole(zero, "bps"@);
        assert(zero.drop_last() =~= Seq::empty());
        assert(digits_value(Seq::<char>::empty()) == 0);
        assert(digits_value(zero) == 0);
        assert(ten_to(0) == 1);
        assert(unit_bits("bps"@) == 1);
        let total = total_nanos(secs, nanos);
        assert(number_tells(0, 1, 1, 0, total)) by (nonlinear_arith);
    } else {
        let (z, u) = settled(bits_per_second_spec(bytes, secs, nanos), 0);
        lemma_shown_number(bytes, secs, nanos);
        let d = decimals_spec(z, u);
        let n = rounded_multiple(z, power_of_ten(d));
        lemma_unit_names(u);
        lemma_fixed_point_reads(n, d, unit_name_spec(u));
        lemma_thousands_grow(u);
    }
}

proof fn lemma_thousands_grow(u: nat)
    requires
        u <= 4,
    ensures
        thousands(u) >= 1,
        u > 0 <==> thousands(u) > 1,
        u < 4 <==> thousands(u) < 1_000_000_000_000,
{
    reveal_with_fuel(thousands, 5);
}

proof fn lemma_fixed_point_reads(n: nat, d: nat, unit: Seq<char>)
    requires
        d <= 2,
        unit.len() > 0,
        !is_digit(unit[0]),
        unit[0] != '.',
    ensures
        ({
            let r = read_number(fixed_point(n, d) + unit);
            &&& r.unit == unit
            &&& r.decimals == d
            &&& digits_value(r.digits) == n
            &&& ten_to(d) == power_of_ten(d)
            &&& r.digits.len() > d
            &&& forall|i: int| 0 <= i < r.digits.len() ==> is_digit(#[trigger] r.digits[i])
            &&& r.digits.len() > d + 1 ==> r.digits[0] != '0'
        }),
{
    reveal_with_fuel(ten_to, 3);
    if d == 0 {
        law_decimal_denotes(n);
        lemma_read_whole(decimal(n), unit);
    } else if d == 1 {
        let whole = decimal(n / 10);
        law_decimal_denotes(n / 10);
        law_digit_appended(whole, n % 10);
        let part = seq![digit_char(n % 10)];
        assert(fixed_point(n, d) + unit =~= whole + seq!['.'] + part + unit);
        lemma_read_parts(whole, part, unit);
        assert(whole + part =~= whole.push(digit_char(n % 10)));
    } else {
        let whole = decimal(n / 100);
        law_decimal_denotes(n / 100);
        let c = digit_char(n / 10 % 10);
        law_digit_appended(whole, n / 10 % 10);
        law_digit_appended(whole.push(c), n % 10);
        let part = seq![c, digit_char(n % 10)];
        assert(fixed_point(n, d) + unit =~= whole + seq!['.'] + part + unit);
        lemma_read_parts(whole, part, unit);
        assert(whole + part =~= whole.push(c).push(digit_char(n % 10)));
    }
}

/// How many characters stand in front of the first blank.
pub open spec fn word_len(s: Seq<char>) -> nat
    decreases s.len(),
{
    if s.len() > 0 && s[0] != ' ' {
        1 + word_len(s.skip(1))
    } else {
        0
    }
}

/// What stands behind `label=` in the first word of the line that starts so.
pub open spec fn field(line: Seq<char>, label: Seq<char>) -> Option<Seq<char>>
    decreases line.len(),
{
    if line.len() == 0 {
        None
    } else {
        let end = word_len(line) as int;
        let word = line.take(end);
        let start = label.push('=');
        if word.len() >= start.len() && word.take(start.len() as int) == start {
            Some(word.skip(start.len() as int))
        } else if end < line.len() {
            field(line.skip(end + 1), label)
        } else {
            None
        }
    }
}

/// Behind `label=` in the line stands a number, written in digits.
pub open spec fn says(line: Seq<char>, label: Seq<char>, n: nat) -> bool {
    &&& field(line, label) matches Some(value)
    &&& value.len() > 0
    &&& forall|i: int| 0 <= i < value.len() ==> is_digit(#[trigger] value[i])
    &&& digits_value(value) == n
}

/// The number behind `label=` in the line.
pub open spec fn count_in(line: Seq<char>, label: Seq<char>) -> nat {
    match field(line, label) {
        Some(value) => digits_value(value),
        None => 0,
    }
}

/// A character does not occur in a text.
pub open spec fn lacks(s: Seq<char>, c: char) -> bool {
    forall|i: int| 0 <= i < s.len() ==> #[trigger] s[i] != c
}

proof fn lemma_word_len(a: Seq<char>, b: Seq<char>)
    requires
        lacks(a, ' '),
        b.len() > 0 ==> b[0] == ' ',
    ensures
        word_len(a + b) == a.len(),
    decreases a.len(),
{
    if a.len() == 0 {
        assert(a + b =~= b);
    } else {
        assert((a + b).skip(1) =~= a.skip(1) + b);
        assert forall|i: int| 0 <= i < a.skip(1).len() implies #[trigger] a.skip(1)[i] != ' ' by {
            assert(a.skip(1)[i] == a[i + 1]);
        }
        lemma_word_len(a.skip(1), b);
    }
}

proof fn lemma_word_len_bound(s: Seq<char>)
    ensures
        word_len(s) <= s.len(),
        word_len(s) < s.len() ==> s[word_len(s) as int] == ' ',
        lacks(s.take(word_len(s) as int), ' '),
    decreases s.len(),
{
    if s.len() > 0 && s[0] != ' ' {
        lemma_word_len_bound(s.skip(1));
        let w = s.take(word_len(s) as int);
        assert forall|i: int| 0 <= i < w.len() implies #[trigger] w[i] != ' ' by {
            if i > 0 {
                assert(w[i] == s.skip(1).take(word_len(s.skip(1)) as int)[i - 1]);
            }
        }
    }
}

/// A line of one field.
proof fn lemma_single_field(label: Seq<char>, value: Seq<char>, wanted: Seq<char>)
    requires
        lacks(label, ' '),
        lacks(label, '='),
        lacks(value, ' '),
        lacks(wanted, '='),
    ensures
        field(label.push('=') + value, wanted) == if label == wanted {
            Some(value)
        } else {
            None
        },
{
    let line = label.push('=') + value;
    assert(lacks(line, ' '));
    assert(line + Seq::<char>::empty() =~= line);
    lemma_word_len(line, Seq::empty());
    assert(line.take(line.len() as int) =~= line);
    let start = wanted.push('=');
    if label == wanted {
        assert(line.take(start.len() as int) =~= start);
        assert(line.skip(start.len() as int) =~= value);
    } else if line.len() >= start.len() && line.take(start.len() as int) == start {
        let head = line.take(start.len() as int);
        if wanted.len() < label.len() {
            assert(head[wanted.len() as int] == label[wanted.len() as int]);
        } else if wanted.len() > label.len() {
            assert(head[label.len() as int] == '=');
            assert(head[label.len() as int] == wanted[label.len() as int]);
        } else {
            assert forall|i: int| 0 <= i < label.len() implies label[i] == wanted[i] by {
                assert(head[i] == label[i]);
                assert(start[i] == wanted[i]);
            }
            assert(label =~= wanted);
        }
    }
}

/// A field behind a line is found where the line itself does not have it.
proof fn lemma_field_behind(
    line: Seq<char>,
    label: Seq<char>,
    value: Seq<char>,
    wanted: Seq<char>,
)
    requires
        lacks(label, ' '),
        lacks(label, '='),
        lacks(value, ' '),
        lacks(wanted, '='),
    ensures
        field(line + (seq![' '] + (label.push('=') + value)), wanted) == match field(line, wanted) {
            Some(found) => Some(found),
            None => if label == wanted {
                Some(value)
            } else {
                None
            },
        },
    decreases line.len(),
{
    let item = label.push('=') + value;
    let tail = seq![' '] + item;
    let whole = line + tail;
    lemma_single_field(label, value, wanted);
    lemma_word_len_bound(line);
    let end = word_len(line) as int;
    let word = line.take(end);
    let after = line.skip(end) + tail;
    assert(whole =~= word + after);
    assert(after.len() > 0 && after[0] == ' ') by {
        if end < line.len() {
            assert(after[0] == line[end]);
        } else {
            assert(after[0] == tail[0]);
        }
    }
    lemma_word_len(word, after);
    assert(whole.take(end) =~= word);
    if end < line.len() {
        lemma_field_behind(line.skip(end + 1), label, value, wanted);
        assert(whole.skip(end + 1) =~= line.skip(end + 1) + tail);
    } else {
        assert(whole.skip(end + 1) =~= item);
        assert(line.take(end) =~= line);
    }
}

/// The same for a field whose label comes as one piece with the blank and the sign.
proof fn lemma_piece_behind(
    line: Seq<char>,
    piece: Seq<char>,
    label: Seq<char>,
    value: Seq<char>,
    wanted: Seq<char>,
)
    requires
        piece == seq![' '] + label.push('='),
        lacks(label, ' '),
        lacks(label, '='),
        lacks(value, ' '),
        lacks(wanted, '='),
    ensures
        field(line + piece + value, wanted) == match field(line, wanted) {
            Some(found) => Some(found),
            None => if label == wanted {
                Some(value)
            } else {
                None
            },
        },
{
    lemma_field_behind(line, label, value, wanted);
    assert(line + piece + value =~= line + (seq![' '] + (label.push('=') + value)));
}

proof fn lemma_decimal_lacks_blanks(n: nat)
    ensures
        lacks(decimal(n), ' '),
{
    law_decimal_denotes(n);
    assert forall|i: int| 0 <= i < decimal(n).len() implies #[trigger] decimal(n)[i] != ' ' by {
        assert(is_digit(decimal(n)[i]));
    }
}

proof fn lemma_rate_lacks_blanks(bytes: nat, secs: nat, nanos: nat)
    requires
        nanos < 1_000_000_000,
    ensures
        lacks(bitrate_text(bytes, secs, nanos), ' '),
{
    if bytes == 0 || (secs == 0 && nanos == 0) {
        reveal_strlit("0bps");
    } else {
        let (z, u) = settled(bits_per_second_spec(bytes, secs, nanos), 0);
        lemma_shown_number(bytes, secs, nanos);
        lemma_unit_names(u);
        let d = decimals_spec(z, u);
        let n = rounded_multiple(z, power_of_ten(d));
        lemma_decimal_lacks_blanks(n);
        lemma_decimal_lacks_blanks(n / 10);
        lemma_decimal_lacks_blanks(n / 100);
        assert(digit_char(n % 10) != ' ' && digit_char(n / 10 % 10) != ' ');
        assert(lacks(fixed_point(n, d), ' '));
    }
}

/// What stands where in the client's report.
proof fn lemma_client_fields(m: ClientMetrics, secs: nat, nanos: nat, wanted: Seq<char>)
    requires
        nanos < 1_000_000_000,
        lacks(wanted, '='),
    ensures
        field(client_report(m, secs, nanos), wanted) == if wanted == "open_connections"@ {
            Some(decimal(m.open_connections as nat))
        } else if wanted == "connect_attempts/s"@ {
            Some(decimal(m.connect_attempts as nat))
        } else if wanted == "connected/s"@ {
            Some(decimal(m.connected as nat))
        } else if wanted == "connect_errors/s"@ {
            Some(decimal(m.connect_errors as nat))
        } else if wanted == "closed/s"@ {
            Some(decimal(m.closed as nat))
        } else if wanted == "datagrams_sent/s"@ {
            Some(decimal(m.datagrams_sent as nat))
        } else if wanted == "send_throughput"@ {
            Some(bitrate_text(m.datagram_bytes_sent as nat, secs, nanos))
        } else if wanted == "send_errors/s"@ {
            Some(decimal(m.send_errors as nat))
        } else {
            None
        },
{
    let d1 = decimal(m.open_connections as nat);
    let d2 = decimal(m.connect_attempts as nat);
    let d3 = decimal(m.connected as nat);
    let d4 = decimal(m.connect_errors as nat);
    let d5 = decimal(m.closed as nat);
    let d6 = decimal(m.datagrams_sent as nat);
    let d7 = bitrate_text(m.datagram_bytes_sent as nat, secs, nanos);
    let d8 = decimal(m.send_errors as nat);
    lemma_decimal_lacks_blanks(m.open_connections as nat);
    lemma_decimal_lacks_blanks(m.connect_attempts as nat);
    lemma_decimal_lacks_blanks(m.connected as nat);
    lemma_decimal_lacks_blanks(m.connect_errors as nat);
    lemma_decimal_lacks_blanks(m.closed as nat);
    lemma_decimal_lacks_blanks(m.datagrams_sent as nat);
    lemma_rate_lacks_blanks(m.datagram_bytes_sent as nat, secs, nanos);
    lemma_decimal_lacks_blanks(m.send_errors as nat);
    lemma_client_labels();
    let l1 = "open_connections="@ + d1;
    let l2 = l1 + " connect_attempts/s="@ + d2;
    let l3 = l2 + " connected/s="@ + d3;
    let l4 = l3 + " connect_errors/s="@ + d4;
    let l5 = l4 + " closed/s="@ + d5;
    let l6 = l5 + " datagrams_sent/s="@ + d6;
    let l7 = l6 + " send_throughput="@ + d7;
    let l8 = l7 + " send_errors/s="@ + d8;
    assert(client_report(m, secs, nanos) == l8);
    lemma_single_field("open_connections"@, d1, wanted);
    lemma_piece_behind(l1, " connect_attempts/s="@, "connect_attempts/s"@, d2, wanted);
    lemma_piece_behind(l2, " connected/s="@, "connected/s"@, d3, wanted);
    lemma_piece_behind(l3, " connect_errors/s="@, "connect_errors/s"@, d4, wanted);
    lemma_piece_behind(l4, " closed/s="@, "closed/s"@, d5, wanted);
    lemma_piece_behind(l5, " datagrams_sent/s="@, "datagrams_sent/s"@, d6, wanted);
    lemma_piece_behind(l6, " send_throughput="@, "send_throughput"@, d7, wanted);
    lemma_piece_behind(l7, " send_errors/s="@, "send_errors/s"@, d8, wanted);
}

/// A label can be looked for, and stands in a line with a blank in front of it and a sign
/// behind it.
spec fn is_label(label: Seq<char>, piece: Seq<char>) -> bool {
    &&& lacks(label, ' ')
    &&& lacks(label, '=')
    &&& piece == seq![' '] + label.push('=')
}

proof fn lemma_client_labels()
    ensures
        lacks("open_connections"@, ' '),
        lacks("open_connections"@, '='),
        "open_connections="@ == "open_connections"@.push('='),
        is_label("connect_attempts/s"@, " connect_attempts/s="@),
        is_label("connected/s"@, " connected/s="@),
        is_label("connect_errors/s"@, " connect_errors/s="@),
        is_label("closed/s"@, " closed/s="@),
        is_label("datagrams_sent/s"@, " datagrams_sent/s="@),
        is_label("send_throughput"@, " send_throughput="@),
        is_label("send_errors/s"@, " send_errors/s="@),
{
    reveal_strlit("open_connections");
    reveal_strlit("open_connections=");
    assert("open_connections="@ =~= "open_connections"@.push('='));
    reveal_strlit("connect_attempts/s");
    reveal_strlit(" connect_attempts/s=");
    assert(" connect_attempts/s="@ =~= seq![' '] + "connect_attempts/s"@.push('='));
    reveal_strlit("connected/s");
    reveal_strlit(" connected/s=");
    assert(" connected/s="@ =~= seq![' '] + "connected/s"@.push('='));
    reveal_strlit("connect_errors/s");
    reveal_strlit(" connect_errors/s=");
    assert(" connect_errors/s="@ =~= seq![' '] + "connect_errors/s"@.push('='));
    reveal_strlit("closed/s");
    reveal_strlit(" closed/s=");
    assert(" closed/s="@ =~= seq![' '] + "closed/s"@.push('='));
    reveal_strlit("datagrams_sent/s");
    reveal_strlit(" datagrams_sent/s=");
    assert(" datagrams_sent/s="@ =~= seq![' '] + "datagrams_sent/s"@.push('='));
    reveal_strlit("send_throughput");
    reveal_strlit(" send_throughput=");
    assert(" send_throughput="@ =~= seq![' '] + "send_throughput"@.push('='));
    reveal_strlit("send_errors/s");
    reveal_strlit(" send_errors/s=");
    assert(" send_errors/s="@ =~= seq![' '] + "send_errors/s"@.push('='));
}

/// No two labels of the client are the same.
proof fn lemma_client_labels_differ()
    ensures
        "connect_attempts/s"@ != "open_connections"@,
        "connected/s"@ != "open_connections"@,
        "connected/s"@ != "connect_attempts/s"@,
        "connect_errors/s"@ != "open_connections"@,
        "connect_errors/s"@ != "connect_attempts/s"@,
        "connect_errors/s"@ != "connected/s"@,
        "closed/s"@ != "open_connections"@,
        "closed/s"@ != "connect_attempts/s"@,
        "closed/s"@ != "connected/s"@,
        "closed/s"@ != "connect_errors/s"@,
        "datagrams_sent/s"@ != "open_connections"@,
        "datagrams_sent/s"@ != "connect_attempts/s"@,
        "datagrams_sent/s"@ != "connected/s"@,
        "datagrams_sent/s"@ != "connect_errors/s"@,
        "datagrams_sent/s"@ != "closed/s"@,
        "send_throughput"@ != "open_connections"@,
        "send_throughput"@ != "connect_attempts/s"@,
        "send_throughput"@ != "connected/s"@,
        "send_throughput"@ != "connect_errors/s"@,
        "send_throughput"@ != "closed/s"@,
        "send_throughput"@ != "datagrams_sent/s"@,
        "send_errors/s"@ != "open_connections"@,
        "send_errors/s"@ != "connect_attempts/s"@,
        "send_errors/s"@ != "connected/s"@,
        "send_errors/s"@ != "connect_errors/s"@,
        "send_errors/s"@ != "closed/s"@,
        "send_errors/s"@ != "datagrams_sent/s"@,
        "send_errors/s"@ != "send_throughput"@,
{
    reveal_strlit("open_connections");
    reveal_strlit("connect_attempts/s");
    reveal_strlit("connected/s");
    reveal_strlit("connect_errors/s");
    reveal_strlit("closed/s");
    reveal_strlit("datagrams_sent/s");
    reveal_strlit("send_throughput");
    reveal_strlit("send_errors/s");
    assert("connect_attempts/s"@.len() == 18);
    assert("connected/s"@.len() == 11);
    assert("closed/s"@.len() == 8);
    assert("send_throughput"@.len() == 15);
    assert("send_errors/s"@.len() == 13);
    assert("open_connections"@.len() == 16);
    assert("connect_errors/s"@.len() == 16);
    assert("datagrams_sent/s"@.len() == 16);
    assert("open_connections"@[0] == 'o');
    assert("connect_errors/s"@[0] == 'c');
    assert("datagrams_sent/s"@[0] == 'd');
}

#[verifier::opaque]
spec fn client_line(m: ClientMetrics, secs: nat, nanos: nat) -> Seq<char> {
    client_report(m, secs, nanos)
}

proof fn lemma_client_says(m: ClientMetrics, secs: nat, nanos: nat)
    requires
        nanos < 1_000_000_000,
    ensures
        ({
            let line = client_line(m, secs, nanos);
            &&& says(line, "open_connections"@, m.open_connections as nat)
            &&& says(line, "connect_attempts/s"@, m.connect_attempts as nat)
            &&& says(line, "connected/s"@, m.connected as nat)
            &&& says(line, "connect_errors/s"@, m.connect_errors as nat)
            &&& says(line, "closed/s"@, m.closed as nat)
            &&& says(line, "datagrams_sent/s"@, m.datagrams_sent as nat)
            &&& says(line, "send_errors/s"@, m.send_errors as nat)
            &&& field(line, "send_throughput"@) matches Some(rate)
            &&& secs > 0 || nanos > 0 ==> tells_rate(
                rate,
                m.datagram_bytes_sent as nat,
                secs * 1_000_000_000 + nanos,
            )
        }),
{
    let line = client_line(m, secs, nanos);
    assert(field(line, "open_connections"@) == Some(decimal(m.open_connections as nat))) by {
        reveal(client_line);
        lemma_client_labels();
        lemma_client_labels_differ();
        lemma_client_fields(m, secs, nanos, "open_connections"@);
    }
    assert(field(line, "connect_attempts/s"@) == Some(decimal(m.connect_attempts as nat))) by {
        reveal(client_line);
        lemma_client_labels();
        lemma_client_labels_differ();
        lemma_client_fields(m, secs, nanos, "connect_attempts/s"@);
    }
    assert(field(line, "connected/s"@) == Some(decimal(m.connected as nat))) by {
        reveal(client_line);
        lemma_client_labels();
        lemma_client_labels_differ();
        lemma_client_fields(m, secs, nanos, "connected/s"@);
    }
    assert(field(line, "connect_errors/s"@) == Some(decimal(m.connect_errors as nat))) by {
        reveal(client_line);
        lemma_client_labels();
        lemma_client_labels_differ();
        lemma_client_fields(m, secs, nanos, "connect_errors/s"@);
    }
    assert(field(line, "closed/s"@) == Some(decimal(m.closed as nat))) by {
        reveal(client_line);
        lemma_client_labels();
        lemma_client_labels_differ();
        lemma_client_fields(m, secs, nanos, "closed/s"@);
    }
    assert(field(line, "datagrams_sent/s"@) == Some(decimal(m.datagrams_sent as nat))) by {
        reveal(client_line);
        lemma_client_labels();
        lemma_client_labels_differ();
        lemma_client_fields(m, secs, nanos, "datagrams_sent/s"@);
    }
    assert(field(line, "send_throughput"@) == Some(bitrate_text(m.datagram_bytes_sent as nat, secs, nanos))) by {
        reveal(client_line);
        lemma_client_labels();
        lemma_client_labels_differ();
        lemma_client_fields(m, secs, nanos, "send_throughput"@);
    }
    assert(field(line, "send_errors/s"@) == Some(decimal(m.send_errors as nat))) by {
        reveal(client_line);
        lemma_client_labels();
        lemma_client_labels_differ();
        lemma_client_fields(m, secs, nanos, "send_errors/s"@);
    }
    law_decimal_denotes(m.open_connections as nat);
    law_decimal_denotes(m.connect_attempts as nat);
    law_decimal_denotes(m.connected as nat);
    law_decimal_denotes(m.connect_errors as nat);
    law_decimal_denotes(m.closed as nat);
    law_decimal_denotes(m.datagrams_sent as nat);
    law_decimal_denotes(m.send_errors as nat);
    if secs > 0 || nanos > 0 {
        law_text_tells_the_rate(m.datagram_bytes_sent as nat, secs, nanos);
    }
}

/// The client's report says what was counted: behind each label stands the count that
/// the label names, and the throughput is that of the bytes sent in the elapsed time.
pub proof fn law_client_report_reads_back(m: ClientMetrics, secs: nat, nanos: nat)
    requires
        nanos < 1_000_000_000,
    ensures
        ({
            let line = client_report(m, secs, nanos);
            &&& says(line, "open_connections"@, m.open_connections as nat)
            &&& says(line, "connect_attempts/s"@, m.connect_attempts as nat)
            &&& says(line, "connected/s"@, m.connected as nat)
            &&& says(line, "connect_errors/s"@, m.connect_errors as nat)
            &&& says(line, "closed/s"@, m.closed as nat)
            &&& says(line, "datagrams_sent/s"@, m.datagrams_sent as nat)
            &&& says(line, "send_errors/s"@, m.send_errors as nat)
            &&& field(line, "send_throughput"@) matches Some(rate)
            &&& secs > 0 || nanos > 0 ==> tells_rate(
                rate,
                m.datagram_bytes_sent as nat,
                secs * 1_000_000_000 + nanos,
            )
        }),
{
    reveal(client_line);
    lemma_client_says(m, secs, nanos);
}

/// The labels of the server's report.
proof fn lemma_server_labels()
    ensures
        lacks("open_connections"@, ' '),
        lacks("open_connections"@, '='),
        "open_connections="@ == "open_connections"@.push('='),
        is_label("accepted/s"@, " accepted/s="@),
        is_label("accept_errors/s"@, " accept_errors/s="@),
        is_label("datagrams/s"@, " datagrams/s="@),
        is_label("datagram_throughput"@, " datagram_throughput="@),
{
    reveal_strlit("open_connections");
    reveal_strlit("open_connections=");
    assert("open_connections="@ =~= "open_connections"@.push('='));
    reveal_strlit("accepted/s");
    reveal_strlit(" accepted/s=");
    assert(" accepted/s="@ =~= seq![' '] + "accepted/s"@.push('='));
    reveal_strlit("accept_errors/s");
    reveal_strlit(" accept_errors/s=");
    assert(" accept_errors/s="@ =~= seq![' '] + "accept_errors/s"@.push('='));
    reveal_strlit("datagrams/s");
    reveal_strlit(" datagrams/s=");
    assert(" datagrams/s="@ =~= seq![' '] + "datagrams/s"@.push('='));
    reveal_strlit("datagram_throughput");
    reveal_strlit(" datagram_throughput=");
    assert(" datagram_throughput="@ =~= seq![' '] + "datagram_throughput"@.push('='));
}

/// No two labels of the server's report are the same.
proof fn lemma_server_labels_differ()
    ensures
        "accepted/s"@ != "open_connections"@,
        "accept_errors/s"@ != "open_connections"@,
        "accept_errors/s"@ != "accepted/s"@,
        "datagrams/s"@ != "open_connections"@,
        "datagrams/s"@ != "accepted/s"@,
        "datagrams/s"@ != "accept_errors/s"@,
        "datagram_throughput"@ != "open_connections"@,
        "datagram_throughput"@ != "accepted/s"@,
        "datagram_throughput"@ != "accept_errors/s"@,
        "datagram_throughput"@ != "datagrams/s"@,
{
    reveal_strlit("open_connections");
    reveal_strlit("accepted/s");
    reveal_strlit("accept_errors/s");
    reveal_strlit("datagrams/s");
    reveal_strlit("datagram_throughput");
    assert("open_connections"@.len() == 16);
    assert("accepted/s"@.len() == 10);
    assert("accept_errors/s"@.len() == 15);
    assert("datagrams/s"@.len() == 11);
    assert("datagram_throughput"@.len() == 19);
}

/// What stands where in the server's report.
proof fn lemma_server_fields(m: ServerMetrics, secs: nat, nanos: nat, wanted: Seq<char>)
    requires
        nanos < 1_000_000_000,
        lacks(wanted, '='),
    ensures
        field(server_report(m, secs, nanos), wanted) == if wanted == "open_connections"@ {
            Some(decimal(m.open_connections as nat))
        } else if wanted == "accepted/s"@ {
            Some(decimal(m.accepted as nat))
        } else if wanted == "accept_errors/s"@ {
            Some(decimal(m.accept_errors as nat))
        } else if wanted == "datagrams/s"@ {
            Some(decimal(m.datagrams as nat))
        } else if wanted == "datagram_throughput"@ {
            Some(bitrate_text(m.datagram_bytes as nat, secs, nanos))
        } else {
            None
        },
{
    let d1 = decimal(m.open_connections as nat);
    let d2 = decimal(m.accepted as nat);
    let d3 = decimal(m.accept_errors as nat);
    let d4 = decimal(m.datagrams as nat);
    let d5 = bitrate_text(m.datagram_bytes as nat, secs, nanos);
    lemma_decimal_lacks_blanks(m.open_connections as nat);
    lemma_decimal_lacks_blanks(m.accepted as nat);
    lemma_decimal_lacks_blanks(m.accept_errors as nat);
    lemma_decimal_lacks_blanks(m.datagrams as nat);
    lemma_rate_lacks_blanks(m.datagram_bytes as nat, secs, nanos);
    lemma_server_labels();
    let l1 = "open_connections="@ + d1;
    let l2 = l1 + " accepted/s="@ + d2;
    let l3 = l2 + " accept_errors/s="@ + d3;
    let l4 = l3 + " datagrams/s="@ + d4;
    let l5 = l4 + " datagram_throughput="@ + d5;
    assert(server_report(m, secs, nanos) == l5);
    lemma_single_field("open_connections"@, d1, wanted);
    lemma_piece_behind(l1, " accepted/s="@, "accepted/s"@, d2, wanted);
    lemma_piece_behind(l2, " accept_errors/s="@, "accept_errors/s"@, d3, wanted);
    lemma_piece_behind(l3, " datagrams/s="@, "datagrams/s"@, d4, wanted);
    lemma_piece_behind(l4, " datagram_throughput="@, "datagram_throughput"@, d5, wanted);
}

#[verifier::opaque]
spec fn server_line(m: ServerMetrics, secs: nat, nanos: nat) -> Seq<char> {
    server_report(m, secs, nanos)
}

proof fn lemma_server_says(m: ServerMetrics, secs: nat, nanos: nat)
    requires
        nanos < 1_000_000_000,
    ensures
        ({
            let line = server_line(m, secs, nanos);
            &&& says(line, "open_connections"@, m.open_connections as nat)
            &&& says(line, "accepted/s"@, m.accepted as nat)
            &&& says(line, "accept_errors/s"@, m.accept_errors as nat)
            &&& says(line, "datagrams/s"@, m.datagrams as nat)
            &&& field(line, "datagram_throughput"@) matches Some(rate)
            &&& secs > 0 || nanos > 0 ==> tells_rate(
                rate,
                m.datagram_bytes as nat,
                secs * 1_000_000_000 + nanos,
            )
        }),
{
    let line = server_line(m, secs, nanos);
    assert(field(line, "open_connections"@) == Some(decimal(m.open_connections as nat))) by {
        reveal(server_line);
        lemma_server_labels();
        lemma_server_labels_differ();
        lemma_server_fields(m, secs, nanos, "open_connections"@);
    }
    assert(field(line, "accepted/s"@) == Some(decimal(m.accepted as nat))) by {
        reveal(server_line);
        lemma_server_labels();
        lemma_server_labels_differ();
        lemma_server_fields(m, secs, nanos, "accepted/s"@);
    }
    assert(field(line, "accept_errors/s"@) == Some(decimal(m.accept_errors as nat))) by {
        reveal(server_line);
        lemma_server_labels();
        lemma_server_labels_differ();
        lemma_server_fields(m, secs, nanos, "accept_errors/s"@);
    }
    assert(field(line, "datagrams/s"@) == Some(decimal(m.datagrams as nat))) by {
        reveal(server_line);
        lemma_server_labels();
        lemma_server_labels_differ();
        lemma_server_fields(m, secs, nanos, "datagrams/s"@);
    }
    assert(field(line, "datagram_throughput"@) == Some(bitrate_text(m.datagram_bytes as nat, secs, nanos))) by {
        reveal(server_line);
        lemma_server_labels();
        lemma_server_labels_differ();
        lemma_server_fields(m, secs, nanos, "datagram_throughput"@);
    }
    law_decimal_denotes(m.open_connections as nat);
    law_decimal_denotes(m.accepted as nat);
    law_decimal_denotes(m.accept_errors as nat);
    law_decimal_denotes(m.datagrams as nat);
    if secs > 0 || nanos > 0 {
        law_text_tells_the_rate(m.datagram_bytes as nat, secs, nanos);
    }
}

/// The server's report says what was counted: behind each label stands the count that
/// the label names, and the throughput is that of the bytes received in the elapsed time.
pub proof fn law_server_report_reads_back(m: ServerMetrics, secs: nat, nanos: nat)
    requires
        nanos < 1_000_000_000,
    ensures
        ({
            let line = server_report(m, secs, nanos);
            &&& says(line, "open_connections"@, m.open_connections as nat)
            &&& says(line, "accepted/s"@, m.accepted as nat)
            &&& says(line, "accept_errors/s"@, m.accept_errors as nat)
            &&& says(line, "datagrams/s"@, m.datagrams as nat)
            &&& field(line, "datagram_throughput"@) matches Some(rate)
            &&& secs > 0 || nanos > 0 ==> tells_rate(
                rate,
                m.datagram_bytes as nat,
                secs * 1_000_000_000 + nanos,
            )
        }),
{
    reveal(server_line);
    lemma_server_says(m, secs, nanos);
}

/// Where the field of a line says a number, or a word in place of zero or of none.
pub open spec fn says_or(line: Seq<char>, label: Seq<char>, n: Option<nat>, word: Seq<char>) -> bool {
    match n {
        Some(n) => says(line, label, n),
        None => field(line, label) == Some(word),
    }
}

proof fn lemma_words_lack_blanks()
    ensures
        lacks("unbounded"@, ' '),
        lacks("unlimited"@, ' '),
        lacks("Wait"@, ' '),
        lacks("Drop"@, ' '),
        lacks("Idle"@, ' '),
        lacks("Enabled"@, ' '),
        lacks("Disabled"@, ' '),
{
    reveal_strlit("unbounded");
    reveal_strlit("unlimited");
    reveal_strlit("Wait");
    reveal_strlit("Drop");
    reveal_strlit("Idle");
    reveal_strlit("Enabled");
    reveal_strlit("Disabled");
}

/// The labels of the line that says what the client does.
proof fn lemma_client_banner_labels()
    ensures
        lacks("local"@, ' '),
        lacks("local"@, '='),
        "local="@ == "local"@.push('='),
        is_label("server"@, " server="@),
        is_label("target_connections"@, " target_connections="@),
        is_label("connect_concurrency"@, " connect_concurrency="@),
        is_label("payload_bytes"@, " payload_bytes="@),
        is_label("send_mode"@, " send_mode="@),
{
    reveal_strlit("local");
    reveal_strlit("local=");
    assert("local="@ =~= "local"@.push('='));
    reveal_strlit("server");
    reveal_strlit(" server=");
    assert(" server="@ =~= seq![' '] + "server"@.push('='));
    reveal_strlit("target_connections");
    reveal_strlit(" target_connections=");
    assert(" target_connections="@ =~= seq![' '] + "target_connections"@.push('='));
    reveal_strlit("connect_concurrency");
    reveal_strlit(" connect_concurrency=");
    assert(" connect_concurrency="@ =~= seq![' '] + "connect_concurrency"@.push('='));
    reveal_strlit("payload_bytes");
    reveal_strlit(" payload_bytes=");
    assert(" payload_bytes="@ =~= seq![' '] + "payload_bytes"@.push('='));
    reveal_strlit("send_mode");
    reveal_strlit(" send_mode=");
    assert(" send_mode="@ =~= seq![' '] + "send_mode"@.push('='));
}

/// No two labels of the line that says what the client does are the same.
proof fn lemma_client_banner_labels_differ()
    ensures
        "server"@ != "local"@,
        "target_connections"@ != "local"@,
        "target_connections"@ != "server"@,
        "connect_concurrency"@ != "local"@,
        "connect_concurrency"@ != "server"@,
        "connect_concurrency"@ != "target_connections"@,
        "payload_bytes"@ != "local"@,
        "payload_bytes"@ != "server"@,
        "payload_bytes"@ != "target_connections"@,
        "payload_bytes"@ != "connect_concurrency"@,
        "send_mode"@ != "local"@,
        "send_mode"@ != "server"@,
        "send_mode"@ != "target_connections"@,
        "send_mode"@ != "connect_concurrency"@,
        "send_mode"@ != "payload_bytes"@,
{
    reveal_strlit("local");
    reveal_strlit("server");
    reveal_strlit("target_connections");
    reveal_strlit("connect_concurrency");
    reveal_strlit("payload_bytes");
    reveal_strlit("send_mode");
    assert("local"@.len() == 5);
    assert("server"@.len() == 6);
    assert("target_connections"@.len() == 18);
    assert("connect_concurrency"@.len() == 19);
    assert("payload_bytes"@.len() == 13);
    assert("send_mode"@.len() == 9);
}

/// What stands where in the line that says what the client does.
proof fn lemma_client_banner_fields(args: ClientArgs, local: Seq<char>, server: Seq<char>, wanted: Seq<char>)
    requires
        lacks(local, ' '),
        lacks(server, ' '),
        lacks(wanted, '='),
    ensures
        field(args.banner_text(local, server), wanted) == if wanted == "local"@ {
            Some(local)
        } else if wanted == "server"@ {
            Some(server)
        } else if wanted == "target_connections"@ {
            Some(target_text(args.connections))
        } else if wanted == "connect_concurrency"@ {
            Some(decimal(args.connect_concurrency as nat))
        } else if wanted == "payload_bytes"@ {
            Some(decimal(args.payload_bytes as nat))
        } else if wanted == "send_mode"@ {
            Some(mode_text(args.send_mode))
        } else {
            None
        },
{
    let d1 = local;
    let d2 = server;
    let d3 = target_text(args.connections);
    let d4 = decimal(args.connect_concurrency as nat);
    let d5 = decimal(args.payload_bytes as nat);
    let d6 = mode_text(args.send_mode);
    lemma_words_lack_blanks();
    lemma_decimal_lacks_blanks(args.connections as nat);
    lemma_decimal_lacks_blanks(args.connect_concurrency as nat);
    lemma_decimal_lacks_blanks(args.payload_bytes as nat);
    lemma_client_banner_labels();
    let l1 = "local="@ + d1;
    let l2 = l1 + " server="@ + d2;
    let l3 = l2 + " target_connections="@ + d3;
    let l4 = l3 + " connect_concurrency="@ + d4;
    let l5 = l4 + " payload_bytes="@ + d5;
    let l6 = l5 + " send_mode="@ + d6;
    assert(args.banner_text(local, server) == l6);
    lemma_single_field("local"@, d1, wanted);
    lemma_piece_behind(l1, " server="@, "server"@, d2, wanted);
    lemma_piece_behind(l2, " target_connections="@, "target_connections"@, d3, wanted);
    lemma_piece_behind(l3, " connect_concurrency="@, "connect_concurrency"@, d4, wanted);
    lemma_piece_behind(l4, " payload_bytes="@, "payload_bytes"@, d5, wanted);
    lemma_piece_behind(l5, " send_mode="@, "send_mode"@, d6, wanted);
}

#[verifier::opaque]
spec fn client_banner_line(args: ClientArgs, local: Seq<char>, server: Seq<char>) -> Seq<char> {
    args.banner_text(local, server)
}

proof fn lemma_client_banner_says(args: ClientArgs, local: Seq<char>, server: Seq<char>)
    requires
        lacks(local, ' '),
        lacks(server, ' '),
    ensures
        ({
            let line = client_banner_line(args, local, server);
            let target = if args.connections == 0 {
                None
            } else {
                Some(args.connections as nat)
            };
            &&& field(line, "local"@) == Some(local)
            &&& field(line, "server"@) == Some(server)
            &&& says_or(line, "target_connections"@, target, "unbounded"@)
            &&& says(line, "connect_concurrency"@, args.connect_concurrency as nat)
            &&& says(line, "payload_bytes"@, args.payload_bytes as nat)
            &&& field(line, "send_mode"@) == Some(
                match args.send_mode {
                    SendMode::Wait => "Wait"@,
                    SendMode::Drop => "Drop"@,
                    SendMode::Idle => "Idle"@,
                },
            )
        }),
{
    let line = client_banner_line(args, local, server);
    assert(field(line, "local"@) == Some(local)) by {
        reveal(client_banner_line);
        lemma_client_banner_labels();
        lemma_client_banner_labels_differ();
        lemma_client_banner_fields(args, local, server, "local"@);
    }
    assert(field(line, "server"@) == Some(server)) by {
        reveal(client_banner_line);
        lemma_client_banner_labels();
        lemma_client_banner_labels_differ();
        lemma_client_banner_fields(args, local, server, "server"@);
    }
    assert(field(line, "target_connections"@) == Some(target_text(args.connections))) by {
        reveal(client_banner_line);
        lemma_client_banner_labels();
        lemma_client_banner_labels_differ();
        lemma_client_banner_fields(args, local, server, "target_connections"@);
    }
    assert(field(line, "connect_concurrency"@) == Some(decimal(args.connect_concurrency as nat))) by {
        reveal(client_banner_line);
        lemma_client_banner_labels();
        lemma_client_banner_labels_differ();
        lemma_client_banner_fields(args, local, server, "connect_concurrency"@);
    }
    assert(field(line, "payload_bytes"@) == Some(decimal(args.payload_bytes as nat))) by {
        reveal(client_banner_line);
        lemma_client_banner_labels();
        lemma_client_banner_labels_differ();
        lemma_client_banner_fields(args, local, server, "payload_bytes"@);
    }
    assert(field(line, "send_mode"@) == Some(mode_text(args.send_mode))) by {
        reveal(client_banner_line);
        lemma_client_banner_labels();
        lemma_client_banner_labels_differ();
        lemma_client_banner_fields(args, local, server, "send_mode"@);
    }
    law_decimal_denotes(args.connect_concurrency as nat);
    law_decimal_denotes(args.payload_bytes as nat);
    law_decimal_denotes(args.connections as nat);
}

/// The line that says what the client does names both addresses, the target, how many
/// tasks connect, the size of a datagram and the send mode.
pub proof fn law_client_banner_reads_back(args: ClientArgs, local: Seq<char>, server: Seq<char>)
    requires
        lacks(local, ' '),
        lacks(server, ' '),
    ensures
        ({
            let line = args.banner_text(local, server);
            let target = if args.connections == 0 {
                None
            } else {
                Some(args.connections as nat)
            };
            &&& field(line, "local"@) == Some(local)
            &&& field(line, "server"@) == Some(server)
            &&& says_or(line, "target_connections"@, target, "unbounded"@)
            &&& says(line, "connect_concurrency"@, args.connect_concurrency as nat)
            &&& says(line, "payload_bytes"@, args.payload_bytes as nat)
            &&& field(line, "send_mode"@) == Some(
                match args.send_mode {
                    SendMode::Wait => "Wait"@,
                    SendMode::Drop => "Drop"@,
                    SendMode::Idle => "Idle"@,
                },
            )
        }),
{
    reveal(client_banner_line);
    lemma_client_banner_says(args, local, server);
}

/// The labels of the line that says what the server does.
proof fn lemma_server_banner_labels()
    ensures
        lacks("listening"@, ' '),
        lacks("listening"@, '='),
        "listening="@ == "listening"@.push('='),
        is_label("accept_tasks"@, " accept_tasks="@),
        is_label("max_concurrent_handshakes"@, " max_concurrent_handshakes="@),
        is_label("endpoint_runtime_threads"@, " endpoint_runtime_threads="@),
        is_label("connection_runtime_threads"@, " connection_runtime_threads="@),
        is_label("socket_recv_buffer_requested"@, " socket_recv_buffer_requested="@),
        is_label("socket_recv_buffer_effective"@, " socket_recv_buffer_effective="@),
        is_label("congestion_control"@, " congestion_control="@),
{
    reveal_strlit("listening");
    reveal_strlit("listening=");
    assert("listening="@ =~= "listening"@.push('='));
    reveal_strlit("accept_tasks");
    reveal_strlit(" accept_tasks=");
    assert(" accept_tasks="@ =~= seq![' '] + "accept_tasks"@.push('='));
    reveal_strlit("max_concurrent_handshakes");
    reveal_strlit(" max_concurrent_handshakes=");
    assert(" max_concurrent_handshakes="@ =~= seq![' '] + "max_concurrent_handshakes"@.push('='));
    reveal_strlit("endpoint_runtime_threads");
    reveal_strlit(" endpoint_runtime_threads=");
    assert(" endpoint_runtime_threads="@ =~= seq![' '] + "endpoint_runtime_threads"@.push('='));
    reveal_strlit("connection_runtime_threads");
    reveal_strlit(" connection_runtime_threads=");
    assert(" connection_runtime_threads="@ =~= seq![' '] + "connection_runtime_threads"@.push('='));
    reveal_strlit("socket_recv_buffer_requested");
    reveal_strlit(" socket_recv_buffer_requested=");
    assert(" socket_recv_buffer_requested="@ =~= seq![' '] + "socket_recv_buffer_requested"@.push('='));
    reveal_strlit("socket_recv_buffer_effective");
    reveal_strlit(" socket_recv_buffer_effective=");
    assert(" socket_recv_buffer_effective="@ =~= seq![' '] + "socket_recv_buffer_effective"@.push('='));
    reveal_strlit("congestion_control");
    reveal_strlit(" congestion_control=");
    assert(" congestion_control="@ =~= seq![' '] + "congestion_control"@.push('='));
}

/// No two labels of the line that says what the server does are the same.
proof fn lemma_server_banner_labels_differ()
    ensures
        "accept_tasks"@ != "listening"@,
        "max_concurrent_handshakes"@ != "listening"@,
        "max_concurrent_handshakes"@ != "accept_tasks"@,
        "endpoint_runtime_threads"@ != "listening"@,
        "endpoint_runtime_threads"@ != "accept_tasks"@,
        "endpoint_runtime_threads"@ != "max_concurrent_handshakes"@,
        "connection_runtime_threads"@ != "listening"@,
        "connection_runtime_threads"@ != "accept_tasks"@,
        "connection_runtime_threads"@ != "max_concurrent_handshakes"@,
        "connection_runtime_threads"@ != "endpoint_runtime_threads"@,
        "socket_recv_buffer_requested"@ != "listening"@,
        "socket_recv_buffer_requested"@ != "accept_tasks"@,
        "socket_recv_buffer_requested"@ != "max_concurrent_handshakes"@,
        "socket_recv_buffer_requested"@ != "endpoint_runtime_threads"@,
        "socket_recv_buffer_requested"@ != "connection_runtime_threads"@,
        "socket_recv_buffer_effective"@ != "listening"@,
        "socket_recv_buffer_effective"@ != "accept_tasks"@,
        "socket_recv_buffer_effective"@ != "max_concurrent_handshakes"@,
        "socket_recv_buffer_effective"@ != "endpoint_runtime_threads"@,
        "socket_recv_buffer_effective"@ != "connection_runtime_threads"@,
        "socket_recv_buffer_effective"@ != "socket_recv_buffer_requested"@,
        "congestion_control"@ != "listening"@,
        "congestion_control"@ != "accept_tasks"@,
        "congestion_control"@ != "max_concurrent_handshakes"@,
        "congestion_control"@ != "endpoint_runtime_threads"@,
        "congestion_control"@ != "connection_runtime_threads"@,
        "congestion_control"@ != "socket_recv_buffer_requested"@,
        "congestion_control"@ != "socket_recv_buffer_effective"@,
{
    reveal_strlit("listening");
    reveal_strlit("accept_tasks");
    reveal_strlit("max_concurrent_handshakes");
    reveal_strlit("endpoint_runtime_threads");
    reveal_strlit("connection_runtime_threads");
    reveal_strlit("socket_recv_buffer_requested");
    reveal_strlit("socket_recv_buffer_effective");
    reveal_strlit("congestion_control");
    assert("listening"@.len() == 9);
    assert("accept_tasks"@.len() == 12);
    assert("max_concurrent_handshakes"@.len() == 25);
    assert("endpoint_runtime_threads"@.len() == 24);
    assert("connection_runtime_threads"@.len() == 26);
    assert("socket_recv_buffer_requested"@.len() == 28);
    assert("socket_recv_buffer_effective"@.len() == 28);
    assert("congestion_control"@.len() == 18);
    assert("socket_recv_buffer_effective"@[19] == 'e');
    assert("socket_recv_buffer_requested"@[19] == 'r');
}

/// What stands where in the line that says what the server does.
proof fn lemma_server_banner_fields(args: ServerArgs, listening: Seq<char>, recv_buffer: usize, wanted: Seq<char>)
    requires
        lacks(listening, ' '),
        lacks(wanted, '='),
    ensures
        field(args.banner_text(listening, recv_buffer), wanted) == if wanted == "listening"@ {
            Some(listening)
        } else if wanted == "accept_tasks"@ {
            Some(decimal(args.accept_tasks as nat))
        } else if wanted == "max_concurrent_handshakes"@ {
            Some(handshakes_text(args.max_concurrent_handshakes))
        } else if wanted == "endpoint_runtime_threads"@ {
            Some(decimal(args.endpoint_runtime_threads as nat))
        } else if wanted == "connection_runtime_threads"@ {
            Some(decimal(args.connection_runtime_threads as nat))
        } else if wanted == "socket_recv_buffer_requested"@ {
            Some(decimal(args.socket_recv_buffer as nat))
        } else if wanted == "socket_recv_buffer_effective"@ {
            Some(decimal(recv_buffer as nat))
        } else if wanted == "congestion_control"@ {
            Some(congestion_text(args.disable_congestion_control))
        } else {
            None
        },
{
    let d1 = listening;
    let d2 = decimal(args.accept_tasks as nat);
    let d3 = handshakes_text(args.max_concurrent_handshakes);
    let d4 = decimal(args.endpoint_runtime_threads as nat);
    let d5 = decimal(args.connection_runtime_threads as nat);
    let d6 = decimal(args.socket_recv_buffer as nat);
    let d7 = decimal(recv_buffer as nat);
    let d8 = congestion_text(args.disable_congestion_control);
    lemma_words_lack_blanks();
    lemma_decimal_lacks_blanks(args.accept_tasks as nat);
    lemma_decimal_lacks_blanks(args.endpoint_runtime_threads as nat);
    lemma_decimal_lacks_blanks(args.connection_runtime_threads as nat);
    lemma_decimal_lacks_blanks(args.socket_recv_buffer as nat);
    lemma_decimal_lacks_blanks(recv_buffer as nat);
    if let Some(n) = args.max_concurrent_handshakes {
        lemma_decimal_lacks_blanks(n as nat);
    }
    lemma_server_banner_labels();
    let l1 = "listening="@ + d1;
    let l2 = l1 + " accept_tasks="@ + d2;
    let l3 = l2 + " max_concurrent_handshakes="@ + d3;
    let l4 = l3 + " endpoint_runtime_threads="@ + d4;
    let l5 = l4 + " connection_runtime_threads="@ + d5;
    let l6 = l5 + " socket_recv_buffer_requested="@ + d6;
    let l7 = l6 + " socket_recv_buffer_effective="@ + d7;
    let l8 = l7 + " congestion_control="@ + d8;
    assert(args.banner_text(listening, recv_buffer) == l8);
    lemma_single_field("listening"@, d1, wanted);
    lemma_piece_behind(l1, " accept_tasks="@, "accept_tasks"@, d2, wanted);
    lemma_piece_behind(l2, " max_concurrent_handshakes="@, "max_concurrent_handshakes"@, d3, wanted);
    lemma_piece_behind(l3, " endpoint_runtime_threads="@, "endpoint_runtime_threads"@, d4, wanted);
    lemma_piece_behind(l4, " connection_runtime_threads="@, "connection_runtime_threads"@, d5, wanted);
    lemma_piece_behind(l5, " socket_recv_buffer_requested="@, "socket_recv_buffer_requested"@, d6, wanted);
    lemma_piece_behind(l6, " socket_recv_buffer_effective="@, "socket_recv_buffer_effective"@, d7, wanted);
    lemma_piece_behind(l7, " congestion_control="@, "congestion_control"@, d8, wanted);
}

#[verifier::opaque]
spec fn server_banner_line(args: ServerArgs, listening: Seq<char>, recv_buffer: usize) -> Seq<char> {
    args.banner_text(listening, recv_buffer)
}

proof fn lemma_server_banner_says(
    args: ServerArgs,
    listening: Seq<char>,
    recv_buffer: usize,
)
    requires
        lacks(listening, ' '),
    ensures
        ({
            let line = server_banner_line(args, listening, recv_buffer);
            let limit = match args.max_concurrent_handshakes {
                None => None,
                Some(n) => Some(n as nat),
            };
            &&& field(line, "listening"@) == Some(listening)
            &&& says(line, "accept_tasks"@, args.accept_tasks as nat)
            &&& says_or(line, "max_concurrent_handshakes"@, limit, "unlimited"@)
            &&& says(line, "endpoint_runtime_threads"@, args.endpoint_runtime_threads as nat)
            &&& says(line, "connection_runtime_threads"@, args.connection_runtime_threads as nat)
            &&& says(line, "socket_recv_buffer_requested"@, args.socket_recv_buffer as nat)
            &&& says(line, "socket_recv_buffer_effective"@, recv_buffer as nat)
            &&& field(line, "congestion_control"@) == Some(
                if args.disable_congestion_control {
                    "Disabled"@
                } else {
                    "Enabled"@
                },
            )
        }),
{
    let line = server_banner_line(args, listening, recv_buffer);
    assert(field(line, "listening"@) == Some(listening)) by {
        reveal(server_banner_line);
        lemma_server_banner_labels();
        lemma_server_banner_labels_differ();
        lemma_server_banner_fields(args, listening, recv_buffer, "listening"@);
    }
    assert(field(line, "accept_tasks"@) == Some(decimal(args.accept_tasks as nat))) by {
        reveal(server_banner_line);
        lemma_server_banner_labels();
        lemma_server_banner_labels_differ();
        lemma_server_banner_fields(args, listening, recv_buffer, "accept_tasks"@);
    }
    assert(field(line, "max_concurrent_handshakes"@) == Some(handshakes_text(args.max_concurrent_handshakes))) by {
        reveal(server_banner_line);
        lemma_server_banner_labels();
        lemma_server_banner_labels_differ();
        lemma_server_banner_fields(args, listening, recv_buffer, "max_concurrent_handshakes"@);
    }
    assert(field(line, "endpoint_runtime_threads"@) == Some(decimal(args.endpoint_runtime_threads as nat))) by {
        reveal(server_banner_line);
        lemma_server_banner_labels();
        lemma_server_banner_labels_differ();
        lemma_server_banner_fields(args, listening, recv_buffer, "endpoint_runtime_threads"@);
    }
    assert(field(line, "connection_runtime_threads"@) == Some(decimal(args.connection_runtime_threads as nat))) by {
        reveal(server_banner_line);
        lemma_server_banner_labels();
        lemma_server_banner_labels_differ();
        lemma_server_banner_fields(args, listening, recv_buffer, "connection_runtime_threads"@);
    }
    assert(field(line, "socket_recv_buffer_requested"@) == Some(decimal(args.socket_recv_buffer as nat))) by {
        reveal(server_banner_line);
        lemma_server_banner_labels();
        lemma_server_banner_labels_differ();
        lemma_server_banner_fields(args, listening, recv_buffer, "socket_recv_buffer_requested"@);
    }
    assert(field(line, "socket_recv_buffer_effective"@) == Some(decimal(recv_buffer as nat))) by {
        reveal(server_banner_line);
        lemma_server_banner_labels();
        lemma_server_banner_labels_differ();
        lemma_server_banner_fields(args, listening, recv_buffer, "socket_recv_buffer_effective"@);
    }
    assert(field(line, "congestion_control"@) == Some(congestion_text(args.disable_congestion_control))) by {
        reveal(server_banner_line);
        lemma_server_banner_labels();
        lemma_server_banner_labels_differ();
        lemma_server_banner_fields(args, listening, recv_buffer, "congestion_control"@);
    }
    law_decimal_denotes(args.accept_tasks as nat);
    law_decimal_denotes(args.endpoint_runtime_threads as nat);
    law_decimal_denotes(args.connection_runtime_threads as nat);
    law_decimal_denotes(args.socket_recv_buffer as nat);
    law_decimal_denotes(recv_buffer as nat);
    if let Some(n) = args.max_concurrent_handshakes {
        law_decimal_denotes(n as nat);
    }
}

/// The line that says what the server does names its address, its tasks, its limit on
/// handshakes, its threads, the buffer it asked for and the one it got, and whether
/// congestion control is on.
pub proof fn law_server_banner_reads_back(
    args: ServerArgs,
    listening: Seq<char>,
    recv_buffer: usize,
)
    requires
        lacks(listening, ' '),
    ensures
        ({
            let line = args.banner_text(listening, recv_buffer);
            let limit = match args.max_concurrent_handshakes {
                None => None,
                Some(n) => Some(n as nat),
            };
            &&& field(line, "listening"@) == Some(listening)
            &&& says(line, "accept_tasks"@, args.accept_tasks as nat)
            &&& says_or(line, "max_concurrent_handshakes"@, limit, "unlimited"@)
            &&& says(line, "endpoint_runtime_threads"@, args.endpoint_runtime_threads as nat)
            &&& says(line, "connection_runtime_threads"@, args.connection_runtime_threads as nat)
            &&& says(line, "socket_recv_buffer_requested"@, args.socket_recv_buffer as nat)
            &&& says(line, "socket_recv_buffer_effective"@, recv_buffer as nat)
            &&& field(line, "congestion_control"@) == Some(
                if args.disable_congestion_control {
                    "Disabled"@
                } else {
                    "Enabled"@
                },
            )
        }),
{
    reveal(server_banner_line);
    lemma_server_banner_says(args, listening, recv_buffer);
}

/// A target is labelled by its number, and no target by a word that is no number.
pub proof fn law_target_label_reads_back(target_connections: usize)
    ensures
        target_connections == 0 ==> target_text(target_connections) == "unbounded"@,
        target_connections > 0 ==> {
            let label = target_text(target_connections);
            &&& label.len() > 0
            &&& forall|i: int| 0 <= i < label.len() ==> is_digit(#[trigger] label[i])
            &&& digits_value(label) == target_connections
        },
{
    law_decimal_denotes(target_connections as nat);
}

/// The client's report has no field but those that are read back.
pub proof fn law_client_report_has_no_other_field(
    m: ClientMetrics,
    secs: nat,
    nanos: nat,
    label: Seq<char>,
)
    requires
        nanos < 1_000_000_000,
        lacks(label, '='),
        label != "open_connections"@,
        label != "connect_attempts/s"@,
        label != "connected/s"@,
        label != "connect_errors/s"@,
        label != "closed/s"@,
        label != "datagrams_sent/s"@,
        label != "send_throughput"@,
        label != "send_errors/s"@,
    ensures
        field(client_report(m, secs, nanos), label) is None,
{
    lemma_client_fields(m, secs, nanos, label);
}

/// The server's report has no field but those that are read back.
pub proof fn law_server_report_has_no_other_field(
    m: ServerMetrics,
    secs: nat,
    nanos: nat,
    label: Seq<char>,
)
    requires
        nanos < 1_000_000_000,
        lacks(label, '='),
        label != "open_connections"@,
        label != "accepted/s"@,
        label != "accept_errors/s"@,
        label != "datagrams/s"@,
        label != "datagram_throughput"@,
    ensures
        field(server_report(m, secs, nanos), label) is None,
{
    lemma_server_fields(m, secs, nanos, label);
}

} // verus!
