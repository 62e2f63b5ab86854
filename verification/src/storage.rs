//! The registry's on-disk form: a JSON array of records, one object per
//! device with its ip, udid and last-seen time. The registry is written
//! through on every mutation, so both sides of the format live here exactly:
//! the encoder computes the bytes that reach the file, the reader parses
//! them back, and the round trip is proved — decoding the encoding of any
//! records free of control characters yields those records.

use vstd::prelude::*;

use crate::protocol::{hex_digit_char, hex_digit_str};
use crate::registry::DeserializedClient;
use crate::subnet::{all_digits, digit_val, digits_val, is_digit};

verus! {

/// How one character stands inside a JSON string: quote and backslash are
/// escaped, control characters take the four-digit hex escape, everything
/// else stands as itself.
pub open spec fn char_json(c: char) -> Seq<char> {
    if c as u32 == 34 {
        seq!['\\', '"']
    } else if c as u32 == 92 {
        seq!['\\', '\\']
    } else if (c as u32) < 32 {
        let hi = hex_digit_char((c as u32 / 16) as int);
        let lo = hex_digit_char((c as u32 % 16) as int);
        seq!['\\', 'u', '0', '0', hi, lo]
    } else {
        seq![c]
    }
}

/// A string's characters inside JSON quotes.
pub open spec fn string_json(s: Seq<char>) -> Seq<char>
    decreases s.len(),
{
    if s.len() == 0 {
        Seq::empty()
    } else {
        string_json(s.drop_last()) + char_json(s.last())
    }
}

/// A number's decimal digits, most significant first.
pub open spec fn decimal_digits(n: nat) -> Seq<char>
    decreases n,
{
    if n < 10 {
        seq![hex_digit_char(n as int)]
    } else {
        decimal_digits(n / 10) + seq![hex_digit_char((n % 10) as int)]
    }
}

/// One record as a JSON object.
pub open spec fn record_json(r: DeserializedClient) -> Seq<char> {
    "{\"ip\":\""@ + string_json(r.ip@) + "\",\"udid\":\""@ + string_json(r.udid@)
        + "\",\"last_seen\":"@ + decimal_digits(r.last_seen as nat) + "}"@
}

/// The records as the comma-separated inside of the JSON array.
pub open spec fn records_json_items(rs: Seq<DeserializedClient>) -> Seq<char>
    decreases rs.len(),
{
    if rs.len() == 0 {
        Seq::empty()
    } else if rs.len() == 1 {
        record_json(rs[0])
    } else {
        records_json_items(rs.drop_last()) + ","@ + record_json(rs.last())
    }
}

/// The whole registry file: a JSON array of the records, in order.
pub open spec fn registry_json(rs: Seq<DeserializedClient>) -> Seq<char> {
    "["@ + records_json_items(rs) + "]"@
}

/// A decimal number, as text.
fn decimal_string(n: u64) -> (r: String)
    ensures
        r@ == decimal_digits(n as nat),
    decreases n,
{
    if n < 10 {
        let r: String = hex_digit_str((n % 16) as u32).to_owned();
        proof {
            assert(n % 16 == n) by (nonlinear_arith)
                requires
                    n < 10,
            ;
            assert(r@ =~= decimal_digits(n as nat));
        }
        r
    } else {
        let mut r = decimal_string(n / 10);
        r.append(hex_digit_str((n % 10) as u32));
        proof {
            assert(r@ =~= decimal_digits(n as nat));
        }
        r
    }
}

/// A string's characters, JSON-escaped.
fn escaped_string(s: &str) -> (r: String)
    ensures
        r@ == string_json(s@),
{
    let n = s.unicode_len();
    let mut r = String::new();
    let mut i: usize = 0;
    proof {
        assert(s@.subrange(0, 0) =~= Seq::<char>::empty());
    }
    while i < n
        invariant
            n == s@.len(),
            0 <= i <= n,
            r@ == string_json(s@.subrange(0, i as int)),
        decreases n - i,
    {
        let c = s.get_char(i);
        let code = c as u32;
        proof {
            assert(s@.subrange(0, i + 1).drop_last() =~= s@.subrange(0, i as int));
            assert(s@.subrange(0, i + 1).last() == s@[i as int]);
        }
        if code == 34 {
            r.append("\\\"");
            proof {
                reveal_strlit("\\\"");
                assert(r@ =~= string_json(s@.subrange(0, i + 1)));
            }
        } else if code == 92 {
            r.append("\\\\");
            proof {
                reveal_strlit("\\\\");
                assert(r@ =~= string_json(s@.subrange(0, i + 1)));
            }
        } else if code < 32 {
            r.append("\\u00");
            r.append(hex_digit_str(code / 16));
            r.append(hex_digit_str(code % 16));
            proof {
                reveal_strlit("\\u00");
                assert(r@ =~= string_json(s@.subrange(0, i + 1)));
            }
        } else {
            let piece = s.substring_char(i, i + 1);
            r.append(piece);
            proof {
                assert(piece@ =~= seq![s@[i as int]]);
                assert(r@ =~= string_json(s@.subrange(0, i + 1)));
            }
        }
        i = i + 1;
    }
    proof {
        assert(s@.subrange(0, n as int) =~= s@);
    }
    r
}

/// One record's JSON object, as text.
fn record_string(rec: &DeserializedClient) -> (r: String)
    ensures
        r@ == record_json(*rec),
{
    let mut r: String = "{\"ip\":\"".to_owned();
    r.append(escaped_string(rec.ip.as_str()).as_str());
    r.append("\",\"udid\":\"");
    r.append(escaped_string(rec.udid.as_str()).as_str());
    r.append("\",\"last_seen\":");
    r.append(decimal_string(rec.last_seen).as_str());
    r.append("}");
    proof {
        assert(r@ =~= record_json(*rec));
    }
    r
}

/// The registry file's contents for these records: the text whose bytes the
/// caller writes through to disk after every mutation.
pub fn encode_registry(records: &Vec<DeserializedClient>) -> (r: String)
    ensures
        r@ == registry_json(records@),
{
    let mut r: String = "[".to_owned();
    let n = records.len();
    let mut i: usize = 0;
    proof {
        assert(records@.subrange(0, 0) =~= Seq::<DeserializedClient>::empty());
        assert(r@ =~= "["@ + records_json_items(records@.subrange(0, 0)));
    }
    while i < n
        invariant
            n == records@.len(),
            0 <= i <= n,
            r@ == "["@ + records_json_items(records@.subrange(0, i as int)),
        decreases n - i,
    {
        if i > 0 {
            r.append(",");
        }
        let item = record_string(&records[i]);
        r.append(item.as_str());
        proof {
            let cur = records@.subrange(0, i + 1);
            assert(cur.drop_last() =~= records@.subrange(0, i as int));
            assert(cur.last() == records@[i as int]);
            assert(r@ =~= "["@ + records_json_items(cur));
        }
        i = i + 1;
    }
    r.append("]");
    proof {
        assert(records@.subrange(0, n as int) =~= records@);
        assert(r@ =~= registry_json(records@));
    }
    r
}

/// Free of control characters: every character of the text stands for
/// itself or for one of the two simple escapes inside a JSON string.
pub open spec fn text_clean(t: Seq<char>) -> bool {
    forall|i: int| 0 <= i < t.len() ==> (#[trigger] t[i]) as u32 >= 32
}

/// Every record's texts are free of control characters.
pub open spec fn records_clean(rs: Seq<DeserializedClient>) -> bool {
    forall|i: int|
        0 <= i < rs.len() ==> text_clean((#[trigger] rs[i]).ip@) && text_clean(rs[i].udid@)
}

/// `lit` stands in `s` at position `p`.
pub open spec fn lit_at(s: Seq<char>, p: int, lit: Seq<char>) -> bool {
    0 <= p && p + lit.len() <= s.len() && s.subrange(p, p + lit.len() as int) == lit
}

/// The first position at or after `p` that holds no digit.
pub open spec fn digits_end(s: Seq<char>, p: int) -> int
    decreases s.len() - p,
{
    if p < 0 || p >= s.len() {
        p
    } else if is_digit(s[p]) {
        digits_end(s, p + 1)
    } else {
        p
    }
}

/// Reads a decimal number at `p`: a non-empty digit run without a leading
/// zero, worth at most a 64-bit value, ending at the first non-digit.
pub open spec fn jnum_parse(s: Seq<char>, p: int) -> Option<(u64, int)> {
    let e = digits_end(s, p);
    let run = s.subrange(p, e);
    if 0 <= p && p < e && (run.len() == 1 || run[0] as u32 != 48) && digits_val(run) <= u64::MAX {
        Some((digits_val(run) as u64, e))
    } else {
        None
    }
}

/// Reads a JSON string body at `p`, up to and through its closing quote:
/// ordinary characters stand for themselves, `\"` and `\\` for quote and
/// backslash; anything else — including control characters and other
/// escapes — is malformed.
pub open spec fn jstr_parse(s: Seq<char>, p: int) -> Option<(Seq<char>, int)>
    decreases s.len() - p,
{
    if p < 0 || p >= s.len() {
        None
    } else if s[p] as u32 == 34 {
        Some((Seq::empty(), p + 1))
    } else if s[p] as u32 == 92 {
        if p + 2 <= s.len() && s[p + 1] as u32 == 34 {
            match jstr_parse(s, p + 2) {
                Some((t, e)) => Some((seq!['"'] + t, e)),
                None => None,
            }
        } else if p + 2 <= s.len() && s[p + 1] as u32 == 92 {
            match jstr_parse(s, p + 2) {
                Some((t, e)) => Some((seq!['\\'] + t, e)),
                None => None,
            }
        } else {
            None
        }
    } else if s[p] as u32 >= 32 {
        match jstr_parse(s, p + 1) {
            Some((t, e)) => Some((seq![s[p]] + t, e)),
            None => None,
        }
    } else {
        None
    }
}

/// Reads one record object at `p`: the three fields, in the order the
/// encoder writes them.
pub open spec fn jrecord_parse(s: Seq<char>, p: int) -> Option<
    ((Seq<char>, Seq<char>, u64), int),
> {
    if !lit_at(s, p, "{\"ip\":\""@) {
        None
    } else {
        match jstr_parse(s, p + "{\"ip\":\""@.len()) {
            Some((ip, p2)) => if lit_at(s, p2, ",\"udid\":\""@) {
                match jstr_parse(s, p2 + ",\"udid\":\""@.len()) {
                    Some((udid, p3)) => if lit_at(s, p3, ",\"last_seen\":"@) {
                        match jnum_parse(s, p3 + ",\"last_seen\":"@.len()) {
                            Some((n, p4)) => if p4 < s.len() && s[p4] as u32 == 125 {
                                Some((((ip, udid, n)), p4 + 1))
                            } else {
                                None
                            },
                            None => None,
                        }
                    } else {
                        None
                    },
                    None => None,
                }
            } else {
                None
            },
            None => None,
        }
    }
}

/// Reads the records inside the array at `p`, through the closing bracket:
/// a bracket closes, otherwise a record follows, then a comma and more
/// records or the bracket.
pub open spec fn jitems_parse(s: Seq<char>, p: int) -> Option<
    (Seq<(Seq<char>, Seq<char>, u64)>, int),
>
    decreases s.len() - p,
{
    if p < 0 || p >= s.len() {
        None
    } else if s[p] as u32 == 93 {
        Some((Seq::empty(), p + 1))
    } else {
        match jrecord_parse(s, p) {
            Some((row, q)) => if p < q && q < s.len() {
                if s[q] as u32 == 44 {
                    match jitems_parse(s, q + 1) {
                        Some((rest, e)) => Some((seq![row] + rest, e)),
                        None => None,
                    }
                } else if s[q] as u32 == 93 {
                    Some((seq![row], q + 1))
                } else {
                    None
                }
            } else {
                None
            },
            None => None,
        }
    }
}

/// Reads a whole registry document: the array, with nothing after it.
pub open spec fn registry_parse(s: Seq<char>) -> Option<Seq<(Seq<char>, Seq<char>, u64)>> {
    if s.len() >= 1 && s[0] as u32 == 91 {
        match jitems_parse(s, 1) {
            Some((rows, e)) => if e == s.len() {
                Some(rows)
            } else {
                None
            },
            None => None,
        }
    } else {
        None
    }
}

/// The records' fields, as the parser hands them back.
pub open spec fn registry_rows(rs: Seq<DeserializedClient>) -> Seq<(Seq<char>, Seq<char>, u64)> {
    Seq::new(rs.len(), |i: int| (rs[i].ip@, rs[i].udid@, rs[i].last_seen))
}

/// Ten to the `k`.
pub open spec fn pow10(k: nat) -> int
    decreases k,
{
    if k == 0 {
        1
    } else {
        10 * pow10((k - 1) as nat)
    }
}

/// Powers of ten are positive and grow with the exponent.
proof fn lemma_pow10_mono(a: nat, b: nat)
    requires
        a <= b,
    ensures
        1 <= pow10(a) <= pow10(b),
    decreases b,
{
    if b > 0 {
        if a == b {
            lemma_pow10_mono((a - 1) as nat, (b - 1) as nat);
        } else {
            lemma_pow10_mono(a, (b - 1) as nat);
        }
    }
}

/// Two characters with one code are one character.
proof fn lemma_char_code(c: char, d: char)
    requires
        c as u32 == d as u32,
    ensures
        c == d,
{
}

/// A digit run without a leading zero is worth at least ten to one less
/// than its length.
proof fn lemma_digits_val_lower(s: Seq<char>)
    requires
        all_digits(s),
        s.len() >= 1,
        s[0] as u32 != 48,
    ensures
        digits_val(s) >= pow10((s.len() - 1) as nat),
    decreases s.len(),
{
    if s.len() == 1 {
        assert(digits_val(s.drop_last()) == 0);
        assert(s.last() == s[0]);
        assert(is_digit(s[0]));
    } else {
        let pre = s.drop_last();
        assert(all_digits(pre) && pre[0] == s[0]) by {
            assert(forall|i: int| 0 <= i < pre.len() ==> pre[i] == s[i]);
        }
        lemma_digits_val_lower(pre);
        assert(is_digit(s.last()));
        assert(pow10((s.len() - 1) as nat) == 10 * pow10((s.len() - 2) as nat));
    }
}

/// The decimal digits of a value: at least one digit, digits throughout, no
/// leading zero unless the value is zero itself, and worth the value.
proof fn lemma_decimal_digits_props(n: nat)
    ensures
        decimal_digits(n).len() >= 1,
        all_digits(decimal_digits(n)),
        digits_val(decimal_digits(n)) == n,
        decimal_digits(n).len() > 1 ==> decimal_digits(n)[0] as u32 != 48,
    decreases n,
{
    if n < 10 {
        let dd = decimal_digits(n);
        assert(dd == seq![hex_digit_char(n as int)]);
        assert(is_digit(dd[0]) && digit_val(dd[0]) == n) by {
            assert(48 <= hex_digit_char(n as int) as u32 <= 57);
            assert(hex_digit_char(n as int) as u32 == 48 + n);
        }
        assert(dd.drop_last() =~= Seq::<char>::empty());
        assert(dd.last() == dd[0]);
        assert(digits_val(dd.drop_last()) == 0);
        assert(digits_val(dd) == digits_val(dd.drop_last()) * 10 + digit_val(dd.last()));
    } else {
        lemma_decimal_digits_props(n / 10);
        let pre = decimal_digits(n / 10);
        let d = hex_digit_char((n % 10) as int);
        let dd = decimal_digits(n);
        assert(dd == pre + seq![d]);
        assert(is_digit(d) && digit_val(d) == n % 10) by {
            assert(48 <= hex_digit_char((n % 10) as int) as u32 <= 57);
            assert(hex_digit_char((n % 10) as int) as u32 == 48 + n % 10);
        }
        assert(all_digits(dd)) by {
            assert(forall|i: int| 0 <= i < pre.len() ==> dd[i] == pre[i]);
            assert(dd[dd.len() - 1] == d);
        }
        assert(dd.drop_last() =~= pre);
        assert(dd.last() == d);
        assert(digits_val(dd) == digits_val(pre) * 10 + digit_val(d));
        assert((n / 10) * 10 + n % 10 == n) by (nonlinear_arith);
        assert(dd[0] == pre[0]);
        if n / 10 < 10 {
            assert(n / 10 >= 1);
            assert(pre == seq![hex_digit_char((n / 10) as int)]);
            assert(pre[0] as u32 == 48 + n / 10);
        } else {
            lemma_decimal_digits_props(n / 10 / 10);
            assert(pre == decimal_digits(n / 10 / 10) + seq![
                hex_digit_char(((n / 10) % 10) as int),
            ]);
            assert(pre.len() > 1);
        }
    }
}

/// Splitting a literal: each half stands where the whole says it does.
proof fn lemma_lit_split(s: Seq<char>, p: int, a: Seq<char>, b: Seq<char>)
    requires
        lit_at(s, p, a + b),
    ensures
        lit_at(s, p, a),
        lit_at(s, p + a.len(), b),
{
    assert forall|i: int| 0 <= i < a.len() implies s.subrange(p, p + a.len() as int)[i]
        == a[i] by {
        assert(s.subrange(p, p + (a + b).len() as int)[i] == (a + b)[i]);
    }
    assert(s.subrange(p, p + a.len() as int) =~= a);
    assert forall|i: int| 0 <= i < b.len() implies s.subrange(
        p + a.len(),
        p + a.len() + b.len() as int,
    )[i] == b[i] by {
        assert(s.subrange(p, p + (a + b).len() as int)[a.len() + i] == (a + b)[a.len() + i]);
    }
    assert(s.subrange(p + a.len(), p + a.len() + b.len() as int) =~= b);
}

/// A digit run bounded by a non-digit pins the scan down.
proof fn lemma_digits_end_run(s: Seq<char>, p: int, run: Seq<char>)
    requires
        lit_at(s, p, run),
        all_digits(run),
        p + run.len() == s.len() || !is_digit(s[p + run.len()]),
    ensures
        digits_end(s, p) == p + run.len(),
    decreases run.len(),
{
    if run.len() == 0 {
    } else {
        assert(s.subrange(p, p + run.len() as int)[0] == s[p]);
        assert(s[p] == run[0]);
        assert(is_digit(s[p]));
        let tail = run.skip(1);
        assert(all_digits(tail)) by {
            assert(forall|i: int| 0 <= i < tail.len() ==> tail[i] == run[i + 1]);
        }
        assert(lit_at(s, p + 1, tail)) by {
            assert forall|i: int| 0 <= i < tail.len() implies s.subrange(
                p + 1,
                p + 1 + tail.len() as int,
            )[i] == tail[i] by {
                assert(s.subrange(p, p + run.len() as int)[i + 1] == run[i + 1]);
            }
            assert(s.subrange(p + 1, p + 1 + tail.len() as int) =~= tail);
        }
        lemma_digits_end_run(s, p + 1, tail);
    }
}

/// A JSON string builds from the front as well as from the back.
proof fn lemma_string_json_front(t: Seq<char>)
    requires
        t.len() > 0,
    ensures
        string_json(t) == char_json(t[0]) + string_json(t.skip(1)),
    decreases t.len(),
{
    if t.len() == 1 {
        assert(t.drop_last() =~= Seq::<char>::empty());
        assert(t.skip(1) =~= Seq::<char>::empty());
        assert(t.last() == t[0]);
        assert(string_json(t) =~= char_json(t[0]) + string_json(t.skip(1)));
    } else {
        let u = t.drop_last();
        lemma_string_json_front(u);
        assert(u[0] == t[0]);
        assert(t.skip(1).drop_last() =~= u.skip(1));
        assert(t.skip(1).len() > 0);
        assert(t.skip(1).last() == t.last());
        assert(string_json(t.skip(1)) == string_json(u.skip(1)) + char_json(t.last()));
        assert(string_json(t) =~= char_json(t[0]) + string_json(t.skip(1)));
    }
}

/// The comma-separated records build from the front as well.
proof fn lemma_items_front(rs: Seq<DeserializedClient>)
    requires
        rs.len() >= 2,
    ensures
        records_json_items(rs) == record_json(rs[0]) + (","@ + records_json_items(rs.skip(1))),
    decreases rs.len(),
{
    let u = rs.drop_last();
    if rs.len() == 2 {
        assert(u =~= seq![rs[0]]);
        assert(rs.skip(1) =~= seq![rs[1]]);
        assert(records_json_items(seq![rs[0]]) == record_json(rs[0]));
        assert(records_json_items(seq![rs[1]]) == record_json(rs[1]));
        assert(records_json_items(rs) =~= record_json(rs[0]) + (","@ + records_json_items(
            rs.skip(1),
        )));
    } else {
        lemma_items_front(u);
        assert(u[0] == rs[0]);
        assert(rs.skip(1).drop_last() =~= u.skip(1));
        assert(rs.skip(1).len() >= 2);
        assert(rs.skip(1).last() == rs.last());
        assert(records_json_items(rs.skip(1)) == records_json_items(u.skip(1)) + ","@
            + record_json(rs.last()));
        assert(records_json_items(rs) =~= record_json(rs[0]) + (","@ + records_json_items(
            rs.skip(1),
        )));
    }
}

/// Reading back what the encoder wrote for one string: the parse returns
/// exactly the encoded text and stops right after the closing quote.
proof fn lemma_jstr_encoding(s: Seq<char>, p: int, t: Seq<char>)
    requires
        text_clean(t),
        lit_at(s, p, string_json(t) + seq!['"']),
    ensures
        jstr_parse(s, p) == Some((t, p + string_json(t).len() + 1)),
    decreases t.len(),
{
    let enc = string_json(t) + seq!['"'];
    if t.len() == 0 {
        assert(string_json(t) == Seq::<char>::empty());
        assert(s.subrange(p, p + enc.len() as int)[0] == s[p]);
        assert(s[p] == '"');
        assert(Seq::<char>::empty() =~= t);
        assert(jstr_parse(s, p) == Some((t, p + 1)));
    } else {
        lemma_string_json_front(t);
        let c = t[0];
        let rest = t.skip(1);
        let cl = char_json(c).len() as int;
        assert(c as u32 >= 32);
        assert(enc =~= char_json(c) + (string_json(rest) + seq!['"']));
        lemma_lit_split(s, p, char_json(c), string_json(rest) + seq!['"']);
        assert(text_clean(rest)) by {
            assert(forall|i: int| 0 <= i < rest.len() ==> rest[i] == t[i + 1]);
        }
        lemma_jstr_encoding(s, p + cl, rest);
        assert(seq![c] + rest =~= t);
        if c as u32 == 34 {
            assert(char_json(c) =~= seq!['\\', '"']);
            assert(s.subrange(p, p + 2)[0] == s[p] && s.subrange(p, p + 2)[1] == s[p + 1]);
            assert(s[p] == '\\' && s[p + 1] == '"');
            lemma_char_code(c, '"');
            assert(jstr_parse(s, p) == Some((t, p + string_json(t).len() + 1)));
        } else if c as u32 == 92 {
            assert(char_json(c) =~= seq!['\\', '\\']);
            assert(s.subrange(p, p + 2)[0] == s[p] && s.subrange(p, p + 2)[1] == s[p + 1]);
            assert(s[p] == '\\' && s[p + 1] == '\\');
            lemma_char_code(c, '\\');
            assert(jstr_parse(s, p) == Some((t, p + string_json(t).len() + 1)));
        } else {
            assert(char_json(c) =~= seq![c]);
            assert(s.subrange(p, p + 1)[0] == s[p]);
            assert(s[p] == c);
            assert(jstr_parse(s, p) == Some((t, p + string_json(t).len() + 1)));
        }
    }
}

/// Reading back what the encoder wrote for one number.
proof fn lemma_jnum_encoding(s: Seq<char>, p: int, n: u64)
    requires
        lit_at(s, p, decimal_digits(n as nat)),
        p + decimal_digits(n as nat).len() == s.len() || !is_digit(
            s[p + decimal_digits(n as nat).len()],
        ),
    ensures
        jnum_parse(s, p) == Some((n, p + decimal_digits(n as nat).len())),
{
    let dd = decimal_digits(n as nat);
    lemma_decimal_digits_props(n as nat);
    lemma_digits_end_run(s, p, dd);
    let e = digits_end(s, p);
    assert(s.subrange(p, e) =~= dd);
    assert(digits_val(dd) == n);
}

/// Reading back what the encoder wrote for one record.
proof fn lemma_jrecord_encoding(s: Seq<char>, p: int, r: DeserializedClient)
    requires
        text_clean(r.ip@),
        text_clean(r.udid@),
        lit_at(s, p, record_json(r)),
    ensures
        jrecord_parse(s, p) == Some((((r.ip@, r.udid@, r.last_seen)), p + record_json(r).len())),
{
    reveal_strlit("{\"ip\":\"");
    reveal_strlit("\",\"udid\":\"");
    reveal_strlit(",\"udid\":\"");
    reveal_strlit("\",\"last_seen\":");
    reveal_strlit(",\"last_seen\":");
    reveal_strlit("}");
    let k1 = "{\"ip\":\""@;
    let sj1 = string_json(r.ip@);
    let k2 = ",\"udid\":\""@;
    let sj2 = string_json(r.udid@);
    let k3 = ",\"last_seen\":"@;
    let dd = decimal_digits(r.last_seen as nat);
    assert("\",\"udid\":\""@ =~= seq!['"'] + k2);
    assert("\",\"last_seen\":"@ =~= seq!['"'] + k3);
    assert("}"@ =~= seq!['}']);
    let tail1 = (sj1 + seq!['"']) + (k2 + ((sj2 + seq!['"']) + (k3 + (dd + seq!['}']))));
    assert(record_json(r) =~= k1 + tail1);
    lemma_lit_split(s, p, k1, tail1);
    let p1 = p + k1.len();
    lemma_lit_split(s, p1, sj1 + seq!['"'], k2 + ((sj2 + seq!['"']) + (k3 + (dd + seq!['}']))));
    lemma_jstr_encoding(s, p1 as int, r.ip@);
    let p2 = p1 + sj1.len() + 1;
    lemma_lit_split(s, p2, k2, (sj2 + seq!['"']) + (k3 + (dd + seq!['}'])));
    let p3 = p2 + k2.len();
    lemma_lit_split(s, p3, sj2 + seq!['"'], k3 + (dd + seq!['}']));
    lemma_jstr_encoding(s, p3 as int, r.udid@);
    let p4 = p3 + sj2.len() + 1;
    lemma_lit_split(s, p4, k3, dd + seq!['}']);
    let p5 = p4 + k3.len();
    lemma_lit_split(s, p5, dd, seq!['}']);
    assert(s.subrange(p5 + dd.len(), p5 + dd.len() + 1)[0] == s[p5 + dd.len() as int]);
    assert(s[p5 + dd.len() as int] == '}');
    assert(!is_digit('}'));
    lemma_jnum_encoding(s, p5 as int, r.last_seen);
}

/// Reading back what the encoder wrote for the whole array body.
proof fn lemma_jitems_encoding(s: Seq<char>, p: int, rs: Seq<DeserializedClient>)
    requires
        records_clean(rs),
        lit_at(s, p, records_json_items(rs) + seq![']']),
    ensures
        jitems_parse(s, p) == Some((registry_rows(rs), p + records_json_items(rs).len() + 1)),
    decreases rs.len(),
{
    reveal_strlit(",");
    reveal_strlit("{\"ip\":\"");
    if rs.len() == 0 {
        assert(records_json_items(rs) == Seq::<char>::empty());
        assert(s.subrange(p, p + 1)[0] == s[p]);
        assert(s[p] == ']');
        assert(registry_rows(rs) =~= Seq::<(Seq<char>, Seq<char>, u64)>::empty());
        assert(jitems_parse(s, p) == Some((registry_rows(rs), p + 1)));
    } else {
        let rec0 = record_json(rs[0]);
        assert(rec0.len() >= 7) by {
            assert(rec0 == "{\"ip\":\""@ + string_json(rs[0].ip@) + "\",\"udid\":\""@
                + string_json(rs[0].udid@) + "\",\"last_seen\":"@ + decimal_digits(
                rs[0].last_seen as nat,
            ) + "}"@);
        }
        let row0 = (rs[0].ip@, rs[0].udid@, rs[0].last_seen);
        if rs.len() == 1 {
            assert(records_json_items(rs) == rec0);
            lemma_lit_split(s, p, rec0, seq![']']);
            lemma_jrecord_encoding(s, p, rs[0]);
            let q = p + rec0.len();
            assert(s.subrange(q, q + 1)[0] == s[q]);
            assert(s[q] == ']');
            assert(rec0.subrange(0, 7) =~= "{\"ip\":\""@) by {
                assert(forall|i: int|
                    0 <= i < 7 ==> rec0.subrange(0, 7)[i] == ("{\"ip\":\""@ + string_json(
                        rs[0].ip@,
                    ) + "\",\"udid\":\""@ + string_json(rs[0].udid@) + "\",\"last_seen\":"@
                        + decimal_digits(rs[0].last_seen as nat) + "}"@)[i]);
            }
            assert(s.subrange(p, p + rec0.len() as int)[0] == s[p]);
            assert(s[p] == '{');
            assert(registry_rows(rs) =~= seq![row0]);
            assert(jitems_parse(s, p) == Some((registry_rows(rs), p + records_json_items(
                rs,
            ).len() + 1)));
        } else {
            lemma_items_front(rs);
            let items_rest = records_json_items(rs.skip(1));
            assert(records_json_items(rs) + seq![']'] =~= rec0 + (","@ + (items_rest
                + seq![']'])));
            lemma_lit_split(s, p, rec0, ","@ + (items_rest + seq![']']));
            assert(text_clean(rs[0].ip@) && text_clean(rs[0].udid@));
            lemma_jrecord_encoding(s, p, rs[0]);
            let q = p + rec0.len();
            lemma_lit_split(s, q, ","@, items_rest + seq![']']);
            assert(s.subrange(q, q + 1)[0] == s[q]);
            assert(s[q] == ',');
            assert(records_clean(rs.skip(1))) by {
                assert(forall|i: int| 0 <= i < rs.skip(1).len() ==> rs.skip(1)[i] == rs[i + 1]);
            }
            lemma_jitems_encoding(s, q + 1, rs.skip(1));
            assert(s.subrange(p, p + rec0.len() as int)[0] == s[p]);
            assert(s[p] == '{');
            assert(registry_rows(rs) =~= seq![row0] + registry_rows(rs.skip(1)));
            assert(jitems_parse(s, p) == Some((registry_rows(rs), p + records_json_items(
                rs,
            ).len() + 1)));
        }
    }
}

/// Whether the character at `i` is a digit.
fn digit_at(s: &str, i: usize) -> (b: bool)
    requires
        i < s@.len(),
    ensures
        b == is_digit(s@[i as int]),
{
    let code = s.get_char(i) as u32;
    48 <= code && code <= 57
}

/// Whether `lit` stands at `p`, and the position just past it when it does.
fn expect_lit(s: &str, p: usize, lit: &str) -> (r: Option<usize>)
    requires
        p <= s@.len(),
    ensures
        match r {
            Some(q) => lit_at(s@, p as int, lit@) && q == p + lit@.len() && q <= s@.len(),
            None => !lit_at(s@, p as int, lit@),
        },
{
    let l = lit.unicode_len();
    let n = s.unicode_len();
    if l > n - p {
        return None;
    }
    let mut j: usize = 0;
    while j < l
        invariant
            p + l <= n,
            n == s@.len(),
            l == lit@.len(),
            0 <= j <= l,
            forall|t: int| 0 <= t < j ==> s@[p + t] == lit@[t],
        decreases l - j,
    {
        if s.get_char(p + j) != lit.get_char(j) {
            proof {
                if lit_at(s@, p as int, lit@) {
                    assert(s@.subrange(p as int, p + l as int)[j as int] == lit@[j as int]);
                }
            }
            return None;
        }
        j = j + 1;
    }
    proof {
        assert(s@.subrange(p as int, p + l as int) =~= lit@);
    }
    Some(p + l)
}

/// Reads a JSON string body, as `jstr_parse` says.
fn parse_jstr(s: &str, p: usize) -> (r: Option<(String, usize)>)
    requires
        p <= s@.len(),
    ensures
        match jstr_parse(s@, p as int) {
            Some((t, e)) => r matches Some((content, q)) && content@ == t && q == e && q
                <= s@.len(),
            None => r is None,
        },
{
    let n = s.unicode_len();
    let mut acc = String::new();
    let mut cur: usize = p;
    proof {
        let sub = jstr_parse(s@, p as int);
        if sub is Some {
            let t = sub->Some_0.0;
            assert(acc@ + t =~= t);
        }
    }
    while cur < n
        invariant
            p <= cur <= n,
            n == s@.len(),
            match jstr_parse(s@, cur as int) {
                Some((t, e)) => jstr_parse(s@, p as int) == Some((acc@ + t, e)),
                None => jstr_parse(s@, p as int) is None,
            },
        decreases n - cur,
    {
        let c = s.get_char(cur);
        let code = c as u32;
        if code == 34 {
            proof {
                assert(acc@ + Seq::<char>::empty() =~= acc@);
            }
            return Some((acc, cur + 1));
        } else if code == 92 {
            if cur + 1 >= n {
                return None;
            }
            let next = s.get_char(cur + 1);
            if next as u32 == 34 {
                let ghost acc0 = acc@;
                acc.append("\"");
                proof {
                    reveal_strlit("\"");
                    assert(acc@ =~= acc0 + seq!['"']);
                    let sub = jstr_parse(s@, cur as int + 2);
                    if sub is Some {
                        let t2 = sub->Some_0.0;
                        assert(acc0 + (seq!['"'] + t2) =~= acc@ + t2);
                    }
                }
            } else if next as u32 == 92 {
                let ghost acc0 = acc@;
                acc.append("\\");
                proof {
                    reveal_strlit("\\");
                    assert(acc@ =~= acc0 + seq!['\\']);
                    let sub = jstr_parse(s@, cur as int + 2);
                    if sub is Some {
                        let t2 = sub->Some_0.0;
                        assert(acc0 + (seq!['\\'] + t2) =~= acc@ + t2);
                    }
                }
            } else {
                return None;
            }
            cur = cur + 2;
        } else if code >= 32 {
            let ghost acc0 = acc@;
            let piece = s.substring_char(cur, cur + 1);
            acc.append(piece);
            proof {
                assert(piece@ =~= seq![s@[cur as int]]);
                assert(acc@ =~= acc0 + seq![s@[cur as int]]);
                let sub = jstr_parse(s@, cur as int + 1);
                if sub is Some {
                    let t2 = sub->Some_0.0;
                    assert(acc0 + (seq![s@[cur as int]] + t2) =~= acc@ + t2);
                }
            }
            cur = cur + 1;
        } else {
            return None;
        }
    }
    None
}

/// Reads a decimal number, as `jnum_parse` says.
fn parse_jnum(s: &str, p: usize) -> (r: Option<(u64, usize)>)
    requires
        p <= s@.len(),
    ensures
        match jnum_parse(s@, p as int) {
            Some((v, e)) => r matches Some((value, q)) && value == v && q == e && q <= s@.len(),
            None => r is None,
        },
{
    let n = s.unicode_len();
    let mut e: usize = p;
    while e < n && digit_at(s, e)
        invariant
            p <= e <= n,
            n == s@.len(),
            digits_end(s@, p as int) == digits_end(s@, e as int),
            forall|t: int| p <= t < e ==> is_digit(#[trigger] s@[t]),
        decreases n - e,
    {
        e = e + 1;
    }
    proof {
        assert(digits_end(s@, e as int) == e);
    }
    let ghost run = s@.subrange(p as int, e as int);
    if e == p {
        return None;
    }
    if e - p > 1 && s.get_char(p) as u32 == 48 {
        proof {
            assert(run[0] == s@[p as int]);
        }
        return None;
    }
    proof {
        assert(all_digits(run)) by {
            assert(forall|t: int| 0 <= t < run.len() ==> run[t] == s@[p + t]);
        }
        assert(run[0] == s@[p as int]);
    }
    if e - p > 20 {
        proof {
            lemma_digits_val_lower(run);
            lemma_pow10_mono(20, (run.len() - 1) as nat);
            assert(pow10(20) == 100000000000000000000) by {
                reveal_with_fuel(pow10, 21);
            }
        }
        return None;
    }
    let mut acc: u128 = 0;
    let mut i: usize = p;
    proof {
        assert(s@.subrange(p as int, p as int) =~= Seq::<char>::empty());
        assert(pow10(0) == 1);
    }
    while i < e
        invariant
            p <= i <= e <= n,
            n == s@.len(),
            e - p <= 20,
            forall|t: int| p <= t < e ==> is_digit(#[trigger] s@[t]),
            acc == digits_val(s@.subrange(p as int, i as int)),
            acc < pow10((i - p) as nat),
        decreases e - i,
    {
        let c = s.get_char(i);
        let d = (c as u32) - 48;
        let ghost pre = s@.subrange(p as int, i as int);
        let ghost next = s@.subrange(p as int, i as int + 1);
        proof {
            assert(next.drop_last() =~= pre);
            assert(next.last() == s@[i as int]);
            assert(pow10(((i - p) + 1) as nat) == 10 * pow10((i - p) as nat));
            lemma_pow10_mono((i - p + 1) as nat, 20);
            assert(pow10(20) == 100000000000000000000) by {
                reveal_with_fuel(pow10, 21);
            }
        }
        acc = acc * 10 + (d as u128);
        i = i + 1;
    }
    proof {
        assert(s@.subrange(p as int, i as int) =~= run);
    }
    if acc > 0xffff_ffff_ffff_ffffu128 {
        return None;
    }
    Some((acc as u64, e))
}

/// Reads one record object, as `jrecord_parse` says.
fn parse_record(s: &str, p: usize) -> (r: Option<(DeserializedClient, usize)>)
    requires
        p <= s@.len(),
    ensures
        match jrecord_parse(s@, p as int) {
            Some((row, e)) => r matches Some((rec, q)) && rec.ip@ == row.0 && rec.udid@ == row.1
                && rec.last_seen == row.2 && q == e && q <= s@.len(),
            None => r is None,
        },
{
    let p1 = match expect_lit(s, p, "{\"ip\":\"") {
        Some(q) => q,
        None => {
            return None;
        },
    };
    let (ip, p2) = match parse_jstr(s, p1) {
        Some(x) => x,
        None => {
            return None;
        },
    };
    let p3 = match expect_lit(s, p2, ",\"udid\":\"") {
        Some(q) => q,
        None => {
            return None;
        },
    };
    let (udid, p4) = match parse_jstr(s, p3) {
        Some(x) => x,
        None => {
            return None;
        },
    };
    let p5 = match expect_lit(s, p4, ",\"last_seen\":") {
        Some(q) => q,
        None => {
            return None;
        },
    };
    let (last_seen, p6) = match parse_jnum(s, p5) {
        Some(x) => x,
        None => {
            return None;
        },
    };
    let n = s.unicode_len();
    if p6 < n && s.get_char(p6) as u32 == 125 {
        Some((DeserializedClient { ip, udid, last_seen }, p6 + 1))
    } else {
        None
    }
}

/// Reads a registry file back, as `registry_parse` says: the array of
/// records the text holds when it is a well-formed registry document, and
/// nothing at all — an empty registry — otherwise. A missing file and an
/// unparsable one cannot be told apart.
pub fn decode_registry(text: &str) -> (r: Vec<DeserializedClient>)
    ensures
        match registry_parse(text@) {
            Some(rows) => r@.len() == rows.len() && forall|i: int|
                0 <= i < rows.len() ==> (#[trigger] r@[i]).ip@ == rows[i].0 && r@[i].udid@
                    == rows[i].1 && r@[i].last_seen == rows[i].2,
            None => r@.len() == 0,
        },
{
    let n = text.unicode_len();
    if n == 0 || text.get_char(0) as u32 != 91 {
        return Vec::new();
    }
    let mut out: Vec<DeserializedClient> = Vec::new();
    let ghost mut rows_acc: Seq<(Seq<char>, Seq<char>, u64)> = Seq::empty();
    let mut p: usize = 1;
    while p < n
        invariant
            1 <= p <= n,
            n == text@.len(),
            n >= 1 && text@[0] as u32 == 91,
            rows_acc.len() == out@.len(),
            forall|i: int|
                0 <= i < rows_acc.len() ==> (#[trigger] out@[i]).ip@ == rows_acc[i].0
                    && out@[i].udid@ == rows_acc[i].1 && out@[i].last_seen == rows_acc[i].2,
            match jitems_parse(text@, p as int) {
                Some((rest, e)) => jitems_parse(text@, 1) == Some((rows_acc + rest, e)),
                None => jitems_parse(text@, 1) is None,
            },
        decreases n - p,
    {
        let c = text.get_char(p);
        if c as u32 == 93 {
            proof {
                assert(rows_acc + Seq::<(Seq<char>, Seq<char>, u64)>::empty() =~= rows_acc);
            }
            if p + 1 == n {
                return out;
            } else {
                return Vec::new();
            }
        }
        let (rec, q) = match parse_record(text, p) {
            Some(x) => x,
            None => {
                return Vec::new();
            },
        };
        if !(p < q && q < n) {
            return Vec::new();
        }
        let sep = text.get_char(q);
        if sep as u32 == 44 {
            proof {
                let row = jrecord_parse(text@, p as int)->Some_0.0;
                let sub = jitems_parse(text@, q + 1);
                if sub is Some {
                    let rest = sub->Some_0.0;
                    assert(rows_acc + (seq![row] + rest) =~= (rows_acc.push(row)) + rest);
                }
                rows_acc = rows_acc.push(row);
            }
            out.push(rec);
            p = q + 1;
        } else if sep as u32 == 93 {
            proof {
                let row = jrecord_parse(text@, p as int)->Some_0.0;
                assert(rows_acc + seq![row] =~= rows_acc.push(row));
                rows_acc = rows_acc.push(row);
            }
            out.push(rec);
            if q + 1 == n {
                return out;
            } else {
                return Vec::new();
            }
        } else {
            return Vec::new();
        }
    }
    Vec::new()
}

/// Law: the registry file reads back exactly — parsing the encoding of any
/// records whose texts are free of control characters yields precisely
/// those records' fields, in order.
pub proof fn lemma_registry_round_trip(rs: Seq<DeserializedClient>)
    requires
        records_clean(rs),
    ensures
        registry_parse(registry_json(rs)) == Some(registry_rows(rs)),
{
    reveal_strlit("[");
    reveal_strlit("]");
    let s = registry_json(rs);
    assert(s =~= seq!['['] + (records_json_items(rs) + seq![']']));
    assert(lit_at(s, 0, seq!['['] + (records_json_items(rs) + seq![']']))) by {
        assert(s.subrange(0, s.len() as int) =~= s);
    }
    lemma_lit_split(s, 0, seq!['['], records_json_items(rs) + seq![']']);
    assert(s.subrange(0, 1)[0] == s[0]);
    assert(s[0] == '[');
    lemma_jitems_encoding(s, 1, rs);
}

} // verus!
