//! The persisted text form of an event log: a JSON array of objects
//! `{"timestamp":N,"input":S|null,"output":S|null}` written without
//! whitespace, with strings escaped as serde_json escapes them.
use vstd::prelude::*;
use crate::error::ErrorKind;
use crate::event::{events_model, EventModel, Source, TerminalEvent};
use crate::text::{chars_of, push_char};

verus! {

// ----- the encoding -----

/// Lower-case hexadecimal digit for `n < 16`.
pub open spec fn hex_char(n: u32) -> char {
    if n < 10 {
        digit_char(n as nat)
    } else if n == 10 {
        'a'
    } else if n == 11 {
        'b'
    } else if n == 12 {
        'c'
    } else if n == 13 {
        'd'
    } else if n == 14 {
        'e'
    } else {
        'f'
    }
}

/// The escaped form of one character inside a JSON string.
pub open spec fn esc_char(c: char) -> Seq<char> {
    if c == '"' {
        seq!['\\', '"']
    } else if c == '\\' {
        seq!['\\', '\\']
    } else if c == '\n' {
        seq!['\\', 'n']
    } else if c == '\r' {
        seq!['\\', 'r']
    } else if c == '\t' {
        seq!['\\', 't']
    } else if c == '\x08' {
        seq!['\\', 'b']
    } else if c == '\x0c' {
        seq!['\\', 'f']
    } else if (c as u32) < 32 {
        seq!['\\', 'u', '0', '0', hex_char((c as u32) / 16), hex_char((c as u32) % 16)]
    } else {
        seq![c]
    }
}

/// The escaped body of a JSON string (without the quotes).
pub open spec fn enc_str(s: Seq<char>) -> Seq<char>
    decreases s.len(),
{
    if s.len() == 0 {
        seq![]
    } else {
        esc_char(s[0]) + enc_str(s.drop_first())
    }
}

/// The decimal digit character for `n < 10`.
pub open spec fn digit_char(n: nat) -> char {
    if n == 0 {
        '0'
    } else if n == 1 {
        '1'
    } else if n == 2 {
        '2'
    } else if n == 3 {
        '3'
    } else if n == 4 {
        '4'
    } else if n == 5 {
        '5'
    } else if n == 6 {
        '6'
    } else if n == 7 {
        '7'
    } else if n == 8 {
        '8'
    } else {
        '9'
    }
}

/// Decimal notation of `n`, without leading zeros.
pub open spec fn digits(n: nat) -> Seq<char>
    decreases n,
{
    if n < 10 {
        seq![digit_char(n)]
    } else {
        digits(n / 10).push(digit_char(n % 10))
    }
}

pub open spec fn key_timestamp() -> Seq<char> {
    "{\"timestamp\":"@
}

pub open spec fn key_input() -> Seq<char> {
    ",\"input\":"@
}

pub open spec fn key_output() -> Seq<char> {
    ",\"output\":"@
}

pub open spec fn null_text() -> Seq<char> {
    "null"@
}

/// A JSON value that is a string or `null`.
pub open spec fn enc_payload(p: Option<Seq<char>>) -> Seq<char> {
    match p {
        Some(s) => seq!['"'] + enc_str(s) + seq!['"'],
        None => null_text(),
    }
}

pub open spec fn input_of(e: EventModel) -> Option<Seq<char>> {
    if e.source == Source::Input { Some(e.payload) } else { None }
}

pub open spec fn output_of(e: EventModel) -> Option<Seq<char>> {
    if e.source == Source::Output { Some(e.payload) } else { None }
}

/// The object written for one event.
pub open spec fn enc_event(e: EventModel) -> Seq<char> {
    key_timestamp() + digits(e.timestamp as nat) + key_input() + enc_payload(input_of(e))
        + key_output() + enc_payload(output_of(e)) + seq!['}']
}

/// The events' objects separated by commas.
pub open spec fn enc_items(l: Seq<EventModel>) -> Seq<char>
    decreases l.len(),
{
    if l.len() == 0 {
        seq![]
    } else if l.len() == 1 {
        enc_event(l[0])
    } else {
        enc_event(l[0]) + seq![','] + enc_items(l.drop_first())
    }
}

/// The persisted text of a log.
pub open spec fn encoded(l: Seq<EventModel>) -> Seq<char> {
    seq!['['] + enc_items(l) + seq![']']
}

// ----- reading it back -----

pub open spec fn prepend<A>(p: Seq<A>, r: Option<(Seq<A>, int)>) -> Option<(Seq<A>, int)> {
    match r {
        Some((s, j)) => Some((p + s, j)),
        None => None,
    }
}

/// `lit` stands in `t` at position `i`.
pub open spec fn lit_at(t: Seq<char>, i: int, lit: Seq<char>) -> bool {
    0 <= i && i + lit.len() <= t.len() && t.subrange(i, i + lit.len()) == lit
}

pub open spec fn is_hex(c: char) -> bool {
    ('0' <= c && c <= '9') || ('a' <= c && c <= 'f')
}

pub open spec fn hex_value(c: char) -> u32 {
    if c <= '9' { (c as u32 - 48) as u32 } else { (c as u32 - 87) as u32 }
}

pub open spec fn is_short_escape(d: char) -> bool {
    d == '"' || d == '\\' || d == 'n' || d == 'r' || d == 't' || d == 'b' || d == 'f'
}

pub open spec fn short_escape_char(d: char) -> char {
    if d == 'n' {
        '\n'
    } else if d == 'r' {
        '\r'
    } else if d == 't' {
        '\t'
    } else if d == 'b' {
        '\x08'
    } else if d == 'f' {
        '\x0c'
    } else {
        d
    }
}

/// How many text characters the string character at `i` takes (0: none can be read there).
pub open spec fn unit_len(t: Seq<char>, i: int) -> int {
    if i < 0 || i >= t.len() || t[i] == '"' {
        0
    } else if t[i] != '\\' {
        1
    } else if i + 1 < t.len() && is_short_escape(t[i + 1]) {
        2
    } else if t.len() - i > 5 && t[i + 1] == 'u' && t[i + 2] == '0' && t[i + 3] == '0'
        && is_hex(t[i + 4]) && is_hex(t[i + 5]) && hex_value(t[i + 4]) < 2 {
        6
    } else {
        0
    }
}

/// The string character that starts at `i`, where `unit_len(t, i) > 0`.
pub open spec fn unit_char(t: Seq<char>, i: int) -> char {
    if t[i] != '\\' {
        t[i]
    } else if unit_len(t, i) == 2 {
        short_escape_char(t[i + 1])
    } else {
        (hex_value(t[i + 4]) * 16 + hex_value(t[i + 5])) as u32 as char
    }
}

/// The body of a string starting at `i`, and the position after its closing quote.
pub open spec fn str_from(t: Seq<char>, i: int) -> Option<(Seq<char>, int)>
    decreases t.len() - i,
{
    if i < 0 || i >= t.len() {
        None
    } else if t[i] == '"' {
        Some((seq![], i + 1))
    } else if unit_len(t, i) <= 0 {
        None
    } else {
        prepend(seq![unit_char(t, i)], str_from(t, i + unit_len(t, i)))
    }
}

pub open spec fn is_digit(c: char) -> bool {
    '0' <= c && c <= '9'
}

/// Length of the run of digits starting at `i`.
pub open spec fn run_len(t: Seq<char>, i: int) -> nat
    decreases t.len() - i,
{
    if 0 <= i < t.len() && is_digit(t[i]) {
        1 + run_len(t, i + 1)
    } else {
        0
    }
}

/// The number that a sequence of digits denotes.
pub open spec fn value_of(s: Seq<char>) -> int
    decreases s.len(),
{
    if s.len() == 0 {
        0
    } else {
        value_of(s.drop_last()) * 10 + (s.last() as u32 - 48)
    }
}

/// The number at `i`, and the position after it.
pub open spec fn number_from(t: Seq<char>, i: int) -> Option<(u128, int)> {
    let n = run_len(t, i);
    if n == 0 || value_of(t.subrange(i, i + n)) > u128::MAX {
        None
    } else {
        Some((value_of(t.subrange(i, i + n)) as u128, i + n))
    }
}

/// A string or `null` at `i`, and the position after it.
pub open spec fn payload_from(t: Seq<char>, i: int) -> Option<(Option<Seq<char>>, int)> {
    if lit_at(t, i, null_text()) {
        Some((None, i + 4))
    } else if 0 <= i < t.len() && t[i] == '"' {
        match str_from(t, i + 1) {
            Some((s, j)) => Some((Some(s), j)),
            None => None,
        }
    } else {
        None
    }
}

pub open spec fn make_event(ts: u128, pi: Option<Seq<char>>, po: Option<Seq<char>>) -> Option<EventModel> {
    match (pi, po) {
        (Some(p), None) => Some(EventModel { timestamp: ts, source: Source::Input, payload: p }),
        (None, Some(p)) => Some(EventModel { timestamp: ts, source: Source::Output, payload: p }),
        _ => None,
    }
}

/// The event object at `i`, and the position after it.
pub open spec fn event_from(t: Seq<char>, i: int) -> Option<(EventModel, int)> {
    if !lit_at(t, i, key_timestamp()) {
        None
    } else {
        match number_from(t, i + key_timestamp().len()) {
            None => None,
            Some((ts, j)) => if !lit_at(t, j, key_input()) {
                None
            } else {
                match payload_from(t, j + key_input().len()) {
                    None => None,
                    Some((pi, k)) => if !lit_at(t, k, key_output()) {
                        None
                    } else {
                        match payload_from(t, k + key_output().len()) {
                            None => None,
                            Some((po, m)) => if 0 <= m < t.len() && t[m] == '}' {
                                match make_event(ts, pi, po) {
                                    Some(e) => Some((e, m + 1)),
                                    None => None,
                                }
                            } else {
                                None
                            },
                        }
                    },
                }
            },
        }
    }
}

/// The objects from `i` up to and including the closing bracket.
pub open spec fn events_from(t: Seq<char>, i: int) -> Option<(Seq<EventModel>, int)>
    decreases t.len() - i,
{
    match event_from(t, i) {
        None => None,
        Some((e, j)) => if j <= i || j >= t.len() {
            None
        } else if t[j] == ']' {
            Some((seq![e], j + 1))
        } else if t[j] == ',' {
            prepend(seq![e], events_from(t, j + 1))
        } else {
            None
        },
    }
}

/// The log that a text is read as, if any.
pub open spec fn parsed(t: Seq<char>) -> Option<Seq<EventModel>> {
    if t.len() < 2 || t[0] != '[' {
        None
    } else if t[1] == ']' {
        if t.len() == 2 { Some(seq![]) } else { None }
    } else {
        match events_from(t, 1) {
            Some((l, j)) => if j == t.len() { Some(l) } else { None },
            None => None,
        }
    }
}


// ----- reading back what was written -----

proof fn lemma_lit_split(t: Seq<char>, i: int, a: Seq<char>, b: Seq<char>)
    requires
        lit_at(t, i, a + b),
    ensures
        lit_at(t, i, a),
        lit_at(t, i + a.len(), b),
{
    let w = t.subrange(i, i + (a + b).len());
    assert(t.subrange(i, i + a.len()) =~= w.subrange(0, a.len() as int));
    assert(w.subrange(0, a.len() as int) =~= a);
    assert(t.subrange(i + a.len(), i + a.len() + b.len()) =~= w.subrange(
        a.len() as int,
        (a + b).len() as int,
    ));
    assert(w.subrange(a.len() as int, (a + b).len() as int) =~= b);
}

proof fn lemma_lit_index(t: Seq<char>, i: int, a: Seq<char>, k: int)
    requires
        lit_at(t, i, a),
        0 <= k < a.len(),
    ensures
        t[i + k] == a[k],
{
    assert(t.subrange(i, i + a.len())[k] == t[i + k]);
}

proof fn lemma_hex(n: u32)
    requires
        n < 16,
    ensures
        is_hex(hex_char(n)),
        hex_value(hex_char(n)) == n,
{
}

proof fn lemma_unit(t: Seq<char>, i: int, c: char)
    requires
        lit_at(t, i, esc_char(c)),
    ensures
        unit_len(t, i) == esc_char(c).len(),
        unit_char(t, i) == c,
        t[i] != '"',
{
    let e = esc_char(c);
    lemma_lit_index(t, i, e, 0);
    if e.len() >= 2 {
        lemma_lit_index(t, i, e, 1);
    }
    if e.len() == 6 {
        lemma_lit_index(t, i, e, 2);
        lemma_lit_index(t, i, e, 3);
        lemma_lit_index(t, i, e, 4);
        lemma_lit_index(t, i, e, 5);
        let u = c as u32;
        lemma_hex(u / 16);
        lemma_hex(u % 16);
        assert(hex_value(t[i + 4]) * 16 + hex_value(t[i + 5]) == u);
        vstd::utf8::char_u32_cast(c, u);
    }
}

proof fn lemma_enc_str(t: Seq<char>, i: int, s: Seq<char>)
    requires
        lit_at(t, i, enc_str(s) + seq!['"']),
    ensures
        str_from(t, i) == Some((s, i + enc_str(s).len() + 1)),
    decreases s.len(),
{
    if s.len() == 0 {
        lemma_lit_index(t, i, enc_str(s) + seq!['"'], 0);
    } else {
        let e = esc_char(s[0]);
        let rest = enc_str(s.drop_first());
        assert(enc_str(s) + seq!['"'] =~= e + (rest + seq!['"']));
        lemma_lit_split(t, i, e, rest + seq!['"']);
        lemma_unit(t, i, s[0]);
        lemma_enc_str(t, i + e.len(), s.drop_first());
        assert(seq![s[0]] + s.drop_first() =~= s);
    }
}

proof fn lemma_digit_char(n: nat)
    requires
        n < 10,
    ensures
        is_digit(digit_char(n)),
        digit_char(n) as u32 - 48 == n,
{
}

proof fn lemma_digits(n: nat)
    ensures
        digits(n).len() >= 1,
        forall|k: int| 0 <= k < digits(n).len() ==> is_digit(#[trigger] digits(n)[k]),
        value_of(digits(n)) == n,
    decreases n,
{
    if n >= 10 {
        lemma_digits(n / 10);
        lemma_digit_char(n % 10);
        let d = digits(n);
        assert(d.drop_last() =~= digits(n / 10));
        assert(d.last() == digit_char(n % 10));
        assert(value_of(d) == value_of(d.drop_last()) * 10 + (d.last() as u32 - 48));
        assert(value_of(d) == (n / 10) * 10 + n % 10);
        assert(n == (n / 10) * 10 + n % 10);
    } else {
        lemma_digit_char(n);
        let d = digits(n);
        assert(d.drop_last() =~= seq![]);
        assert(value_of(d) == value_of(d.drop_last()) * 10 + (d.last() as u32 - 48));
    }
}

proof fn lemma_run(t: Seq<char>, i: int, m: int)
    requires
        0 <= i,
        0 <= m,
        i + m <= t.len(),
        forall|k: int| i <= k < i + m ==> is_digit(#[trigger] t[k]),
        i + m == t.len() || !is_digit(t[i + m]),
    ensures
        run_len(t, i) == m,
    decreases m,
{
    if m > 0 {
        lemma_run(t, i + 1, m - 1);
    }
}

pub(crate) proof fn lemma_number(t: Seq<char>, i: int, n: u128)
    requires
        lit_at(t, i, digits(n as nat)),
        i + digits(n as nat).len() == t.len() || !is_digit(t[i + digits(n as nat).len()]),
    ensures
        number_from(t, i) == Some((n, i + digits(n as nat).len())),
{
    let d = digits(n as nat);
    lemma_digits(n as nat);
    assert forall|k: int| i <= k < i + d.len() implies is_digit(#[trigger] t[k]) by {
        lemma_lit_index(t, i, d, k - i);
    }
    lemma_run(t, i, d.len() as int);
}

proof fn lemma_payload(t: Seq<char>, i: int, p: Option<Seq<char>>)
    requires
        lit_at(t, i, enc_payload(p)),
    ensures
        payload_from(t, i) == Some((p, i + enc_payload(p).len())),
{
    reveal_strlit("null");
    match p {
        Some(s) => {
            assert(enc_payload(p) =~= seq!['"'] + (enc_str(s) + seq!['"']));
            lemma_lit_split(t, i, seq!['"'], enc_str(s) + seq!['"']);
            lemma_lit_index(t, i, seq!['"'], 0);
            if lit_at(t, i, null_text()) {
                lemma_lit_index(t, i, null_text(), 0);
            }
            lemma_enc_str(t, i + 1, s);
        },
        None => {},
    }
}

proof fn lemma_event(t: Seq<char>, i: int, e: EventModel)
    requires
        lit_at(t, i, enc_event(e)),
    ensures
        event_from(t, i) == Some((e, i + enc_event(e).len())),
{
    reveal_strlit(",\"input\":");
    reveal_strlit("{\"timestamp\":");
    reveal_strlit(",\"output\":");
    let a = key_timestamp();
    let d = digits(e.timestamp as nat);
    let b = key_input();
    let pi = enc_payload(input_of(e));
    let c = key_output();
    let po = enc_payload(output_of(e));
    let x1 = a + d;
    let x2 = x1 + b;
    let x3 = x2 + pi;
    let x4 = x3 + c;
    let x5 = x4 + po;
    lemma_lit_split(t, i, x5, seq!['}']);
    lemma_lit_split(t, i, x4, po);
    lemma_lit_split(t, i, x3, c);
    lemma_lit_split(t, i, x2, pi);
    lemma_lit_split(t, i, x1, b);
    lemma_lit_split(t, i, a, d);
    lemma_lit_index(t, i + x1.len(), b, 0);
    lemma_lit_index(t, i + x5.len(), seq!['}'], 0);
    lemma_number(t, i + a.len(), e.timestamp);
    lemma_payload(t, i + x2.len(), input_of(e));
    lemma_payload(t, i + x4.len(), output_of(e));
}

proof fn lemma_items(t: Seq<char>, i: int, l: Seq<EventModel>)
    requires
        l.len() >= 1,
        lit_at(t, i, enc_items(l) + seq![']']),
    ensures
        events_from(t, i) == Some((l, i + enc_items(l).len() + 1)),
    decreases l.len(),
{
    let ev = enc_event(l[0]);
    if l.len() == 1 {
        lemma_lit_split(t, i, ev, seq![']']);
        lemma_lit_index(t, i + ev.len(), seq![']'], 0);
        lemma_event(t, i, l[0]);
        assert(seq![l[0]] =~= l);
    } else {
        let rest = enc_items(l.drop_first());
        assert(enc_items(l) + seq![']'] =~= ev + (seq![','] + (rest + seq![']'])));
        lemma_lit_split(t, i, ev, seq![','] + (rest + seq![']']));
        lemma_lit_split(t, i + ev.len(), seq![','], rest + seq![']']);
        lemma_lit_index(t, i + ev.len(), seq![','], 0);
        lemma_event(t, i, l[0]);
        lemma_items(t, i + ev.len() + 1, l.drop_first());
        assert(seq![l[0]] + l.drop_first() =~= l);
    }
}

/// Reading the text written for a log gives back exactly that log.
pub proof fn lemma_parse_encode(l: Seq<EventModel>)
    ensures
        parsed(encoded(l)) == Some(l),
{
    let t = encoded(l);
    if l.len() == 0 {
        assert(t =~= seq!['[', ']']);
        assert(seq![] =~= l);
    } else {
        reveal_strlit("{\"timestamp\":");
        assert(t.subrange(1, t.len() as int) =~= enc_items(l) + seq![']']);
        if l.len() == 1 {
            assert(enc_items(l) =~= enc_event(l[0]));
        } else {
            assert(enc_items(l) =~= enc_event(l[0]) + (seq![','] + enc_items(l.drop_first())));
        }
        assert(t[1] == enc_event(l[0])[0]);
        lemma_items(t, 1, l);
    }
}

/// Distinct logs are written as distinct texts, so reading a written log
/// back yields that same log.
pub proof fn lemma_round_trip(l1: Seq<EventModel>, l2: Seq<EventModel>)
    requires
        encoded(l1) == encoded(l2),
    ensures
        l1 == l2,
{
    lemma_parse_encode(l1);
    lemma_parse_encode(l2);
}

// ----- writing -----

proof fn lemma_enc_str_push(s: Seq<char>, c: char)
    ensures
        enc_str(s.push(c)) == enc_str(s) + esc_char(c),
    decreases s.len(),
{
    if s.len() == 0 {
        assert(s.push(c).drop_first() =~= seq![]);
        assert(s.push(c)[0] == c);
        assert(enc_str(s.push(c).drop_first()) =~= seq![]);
        assert(enc_str(s) =~= seq![]);
        assert(enc_str(s.push(c)) =~= esc_char(c));
    } else {
        assert(s.push(c).drop_first() =~= s.drop_first().push(c));
        lemma_enc_str_push(s.drop_first(), c);
        assert(enc_str(s.push(c)) =~= enc_str(s) + esc_char(c));
    }
}

proof fn lemma_items_push(l: Seq<EventModel>, e: EventModel)
    requires
        l.len() >= 1,
    ensures
        enc_items(l.push(e)) == enc_items(l) + seq![','] + enc_event(e),
    decreases l.len(),
{
    assert(l.push(e).drop_first() =~= l.drop_first().push(e));
    assert(l.push(e)[0] == l[0]);
    if l.len() == 1 {
        assert(l.drop_first().push(e) =~= seq![e]);
        assert(seq![e][0] == e);
        assert(enc_items(seq![e]) == enc_event(e));
        assert(enc_items(l) == enc_event(l[0]));
    } else {
        lemma_items_push(l.drop_first(), e);
        assert(enc_items(l.push(e)) =~= enc_items(l) + seq![','] + enc_event(e));
    }
}

fn digit_char_exec(n: u32) -> (r: char)
    requires
        n < 10,
    ensures
        r == digit_char(n as nat),
{
    if n == 0 {
        '0'
    } else if n == 1 {
        '1'
    } else if n == 2 {
        '2'
    } else if n == 3 {
        '3'
    } else if n == 4 {
        '4'
    } else if n == 5 {
        '5'
    } else if n == 6 {
        '6'
    } else if n == 7 {
        '7'
    } else if n == 8 {
        '8'
    } else {
        '9'
    }
}

fn hex_char_exec(n: u32) -> (r: char)
    requires
        n < 16,
    ensures
        r == hex_char(n),
{
    if n < 10 {
        digit_char_exec(n)
    } else if n == 10 {
        'a'
    } else if n == 11 {
        'b'
    } else if n == 12 {
        'c'
    } else if n == 13 {
        'd'
    } else if n == 14 {
        'e'
    } else {
        'f'
    }
}

fn push_escaped_char(out: &mut String, c: char)
    ensures
        final(out)@ == old(out)@ + esc_char(c),
{
    let u = c as u32;
    if c == '"' || c == '\\' || c == '\n' || c == '\r' || c == '\t' || c == '\x08' || c == '\x0c' {
        push_char(out, '\\');
        let d = if c == '\n' {
            'n'
        } else if c == '\r' {
            'r'
        } else if c == '\t' {
            't'
        } else if c == '\x08' {
            'b'
        } else if c == '\x0c' {
            'f'
        } else {
            c
        };
        push_char(out, d);
    } else if u < 32 {
        push_char(out, '\\');
        push_char(out, 'u');
        push_char(out, '0');
        push_char(out, '0');
        push_char(out, hex_char_exec(u / 16));
        push_char(out, hex_char_exec(u % 16));
    } else {
        push_char(out, c);
    }
    assert(final(out)@ =~= old(out)@ + esc_char(c));
}

/// Appends the escaped body of `s`.
fn push_escaped(out: &mut String, s: &str)
    ensures
        final(out)@ == old(out)@ + enc_str(s@),
{
    let cs = chars_of(s);
    let ghost start = out@;
    let mut k: usize = 0;
    while k < cs.len()
        invariant
            k <= cs.len(),
            cs@ == s@,
            out@ == start + enc_str(cs@.take(k as int)),
        decreases cs.len() - k,
    {
        let c = cs[k];
        proof {
            lemma_enc_str_push(cs@.take(k as int), c);
            assert(cs@.take(k as int).push(c) =~= cs@.take(k + 1));
        }
        push_escaped_char(out, c);
        k = k + 1;
    }
    assert(cs@.take(k as int) =~= s@);
}

/// Appends the decimal notation of `n`.
pub(crate) fn push_digits(out: &mut String, n: u128)
    ensures
        final(out)@ == old(out)@ + digits(n as nat),
    decreases n,
{
    if n >= 10 {
        push_digits(out, n / 10);
    }
    push_char(out, digit_char_exec((n % 10) as u32));
    assert(final(out)@ =~= old(out)@ + digits(n as nat));
}

fn push_payload(out: &mut String, p: Option<&str>)
    ensures
        final(out)@ == old(out)@ + enc_payload(
            match p {
                Some(s) => Some(s@),
                None => None,
            },
        ),
{
    match p {
        Some(s) => {
            push_char(out, '"');
            push_escaped(out, s);
            push_char(out, '"');
            assert(final(out)@ =~= old(out)@ + (seq!['"'] + enc_str(s@) + seq!['"']));
        },
        None => {
            out.append("null");
        },
    }
}

fn push_event(out: &mut String, e: &TerminalEvent)
    ensures
        final(out)@ == old(out)@ + enc_event(e@),
{
    let (pi, po) = match e.source {
        Source::Input => (Some(e.payload.as_str()), None),
        Source::Output => (None, Some(e.payload.as_str())),
    };
    out.append("{\"timestamp\":");
    push_digits(out, e.timestamp);
    out.append(",\"input\":");
    push_payload(out, pi);
    out.append(",\"output\":");
    push_payload(out, po);
    push_char(out, '}');
    assert(final(out)@ =~= old(out)@ + enc_event(e@));
}

/// Writes a log in its persisted text form.
pub fn encode_log(events: &Vec<TerminalEvent>) -> (r: String)
    ensures
        r@ == encoded(events_model(events@)),
{
    let ghost l = events_model(events@);
    let mut out = String::new();
    push_char(&mut out, '[');
    let mut k: usize = 0;
    while k < events.len()
        invariant
            k <= events.len(),
            l == events_model(events@),
            out@ == seq!['['] + enc_items(l.take(k as int)),
        decreases events.len() - k,
    {
        proof {
            assert(l.take(k + 1) =~= l.take(k as int).push(l[k as int]));
            if k >= 1 {
                lemma_items_push(l.take(k as int), l[k as int]);
            } else {
                assert(l.take(1) =~= seq![l[0]]);
            }
        }
        if k > 0 {
            push_char(&mut out, ',');
        }
        push_event(&mut out, &events[k]);
        proof {
            if k == 0 {
                assert(out@ =~= seq!['['] + enc_items(l.take(1)));
            } else {
                assert(out@ =~= seq!['['] + enc_items(l.take(k + 1)));
            }
        }
        k = k + 1;
    }
    push_char(&mut out, ']');
    assert(l.take(k as int) =~= l);
    out
}

// ----- reading -----

pub open spec fn opt_view(p: Option<String>) -> Option<Seq<char>> {
    match p {
        Some(s) => Some(s@),
        None => None,
    }
}

proof fn lemma_prepend_push<A>(p: Seq<A>, c: A, r: Option<(Seq<A>, int)>)
    ensures
        prepend(p, prepend(seq![c], r)) == prepend(p.push(c), r),
{
    match r {
        Some((s, j)) => {
            assert(p + (seq![c] + s) =~= p.push(c) + s);
        },
        None => {},
    }
}

fn lit_at_exec(t: &Vec<char>, i: usize, lit: &str) -> (r: bool)
    requires
        i <= t.len(),
    ensures
        r == lit_at(t@, i as int, lit@),
{
    let n = lit.unicode_len();
    if n > t.len() - i {
        return false;
    }
    let mut k: usize = 0;
    while k < n
        invariant
            n == lit@.len(),
            i + n <= t.len(),
            k <= n,
            forall|j: int| 0 <= j < k ==> t@[i + j] == lit@[j],
        decreases n - k,
    {
        if t[i + k] != lit.get_char(k) {
            assert(t@.subrange(i as int, i + n)[k as int] == t@[i + k]);
            return false;
        }
        k = k + 1;
    }
    assert(t@.subrange(i as int, i + n) =~= lit@);
    true
}

fn is_hex_exec(c: char) -> (r: bool)
    ensures
        r == is_hex(c),
{
    ('0' <= c && c <= '9') || ('a' <= c && c <= 'f')
}

fn hex_value_exec(c: char) -> (r: u32)
    requires
        is_hex(c),
    ensures
        r == hex_value(c),
{
    if c <= '9' {
        c as u32 - 48
    } else {
        c as u32 - 87
    }
}

/// The string character at `i`: how many text characters it takes (0 where
/// none can be read) and, where it takes some, which character it is.
fn unit_exec(t: &Vec<char>, i: usize) -> (r: (usize, char))
    requires
        i < t.len(),
    ensures
        r.0 as int == unit_len(t@, i as int),
        r.0 > 0 ==> r.1 == unit_char(t@, i as int),
{
    let c = t[i];
    if c == '"' {
        (0, c)
    } else if c != '\\' {
        (1, c)
    } else if i + 1 < t.len() && (t[i + 1] == '"' || t[i + 1] == '\\' || t[i + 1] == 'n'
        || t[i + 1] == 'r' || t[i + 1] == 't' || t[i + 1] == 'b' || t[i + 1] == 'f') {
        let d = t[i + 1];
        let ch = if d == 'n' {
            '\n'
        } else if d == 'r' {
            '\r'
        } else if d == 't' {
            '\t'
        } else if d == 'b' {
            '\x08'
        } else if d == 'f' {
            '\x0c'
        } else {
            d
        };
        (2, ch)
    } else if t.len() - i > 5 && t[i + 1] == 'u' && t[i + 2] == '0' && t[i + 3] == '0'
        && is_hex_exec(t[i + 4]) && is_hex_exec(t[i + 5]) && hex_value_exec(t[i + 4]) < 2 {
        let v = hex_value_exec(t[i + 4]) * 16 + hex_value_exec(t[i + 5]);
        let ch = (v as u8) as char;
        proof {
            vstd::utf8::char_u32_cast(ch, v);
        }
        (6, ch)
    } else {
        (0, c)
    }
}

/// Reads a string body starting at `i` (just after the opening quote).
fn parse_str(t: &Vec<char>, i: usize) -> (r: Option<(String, usize)>)
    requires
        i <= t.len(),
    ensures
        match r {
            Some((s, j)) => str_from(t@, i as int) == Some((s@, j as int)) && j <= t.len(),
            None => str_from(t@, i as int) is None,
        },
{
    let mut out = String::new();
    let mut p: usize = i;
    assert(out@ + seq![] =~= seq![]);
    loop
        invariant
            i <= p <= t.len(),
            str_from(t@, i as int) == prepend(out@, str_from(t@, p as int)),
        decreases t.len() - p,
    {
        if p >= t.len() {
            return None;
        }
        if t[p] == '"' {
            assert(out@ + seq![] =~= out@);
            return Some((out, p + 1));
        }
        let (k, c) = unit_exec(t, p);
        if k == 0 {
            return None;
        }
        proof {
            lemma_prepend_push(out@, c, str_from(t@, p + k));
        }
        push_char(&mut out, c);
        p = p + k;
    }
}

proof fn lemma_run_digits(t: Seq<char>, i: int, k: int)
    requires
        0 <= i,
        0 <= k < run_len(t, i),
    ensures
        is_digit(t[i + k]),
    decreases k,
{
    if k > 0 {
        lemma_run_digits(t, i + 1, k - 1);
    }
}

proof fn lemma_run_bound(t: Seq<char>, i: int)
    requires
        0 <= i <= t.len(),
    ensures
        run_len(t, i) <= t.len() - i,
    decreases t.len() - i,
{
    if i < t.len() {
        lemma_run_bound(t, i + 1);
    }
}

proof fn lemma_value_mono(s: Seq<char>, a: int)
    requires
        0 <= a <= s.len(),
        forall|k: int| 0 <= k < s.len() ==> is_digit(#[trigger] s[k]),
    ensures
        0 <= value_of(s.take(a)) <= value_of(s),
    decreases s.len(),
{
    if s.len() > 0 {
        let dl = s.drop_last();
        if a == s.len() {
            lemma_value_mono(dl, dl.len() as int);
            assert(dl.take(dl.len() as int) =~= dl);
            assert(s.take(a) =~= s);
        } else {
            lemma_value_mono(dl, a);
            assert(dl.take(a) =~= s.take(a));
            lemma_value_mono(dl, dl.len() as int);
            assert(dl.take(dl.len() as int) =~= dl);
        }
    }
}

pub(crate) fn parse_number(t: &Vec<char>, i: usize) -> (r: Option<(u128, usize)>)
    requires
        i <= t.len(),
    ensures
        match r {
            Some((v, j)) => number_from(t@, i as int) == Some((v, j as int)) && j <= t.len(),
            None => number_from(t@, i as int) is None,
        },
{
    let mut acc: u128 = 0;
    let mut p: usize = i;
    assert(t@.subrange(i as int, i as int) =~= seq![]);
    while p < t.len() && '0' <= t[p] && t[p] <= '9'
        invariant
            i <= p <= t.len(),
            acc as int == value_of(t@.subrange(i as int, p as int)),
            forall|k: int| i <= k < p ==> is_digit(#[trigger] t@[k]),
            run_len(t@, i as int) == (p - i) + run_len(t@, p as int),
        decreases t.len() - p,
    {
        let d = (t[p] as u32 - 48) as u128;
        proof {
            assert(t@.subrange(i as int, p + 1).drop_last() =~= t@.subrange(i as int, p as int));
        }
        let next = if acc <= (u128::MAX - d) / 10 {
            acc * 10 + d
        } else {
            proof {
                let n = run_len(t@, i as int);
                lemma_run_bound(t@, i as int);
                assert(run_len(t@, p as int) >= 1);
                let s = t@.subrange(i as int, i + n);
                assert forall|k: int| 0 <= k < s.len() implies is_digit(#[trigger] s[k]) by {
                    lemma_run_digits(t@, i as int, k);
                }
                lemma_value_mono(s, p + 1 - i);
                assert(s.take(p + 1 - i) =~= t@.subrange(i as int, p + 1));
                assert(acc * 10 + d > u128::MAX) by (nonlinear_arith)
                    requires acc > (u128::MAX - d) / 10, d < 10;
            }
            return None;
        };
        acc = next;
        p = p + 1;
    }
    if p == i {
        return None;
    }
    Some((acc, p))
}

fn parse_payload(t: &Vec<char>, i: usize) -> (r: Option<(Option<String>, usize)>)
    requires
        i <= t.len(),
    ensures
        match r {
            Some((p, j)) => payload_from(t@, i as int) == Some((opt_view(p), j as int)) && j <= t.len(),
            None => payload_from(t@, i as int) is None,
        },
{
    if lit_at_exec(t, i, "null") {
        proof {
            reveal_strlit("null");
        }
        Some((None, i + 4))
    } else if i < t.len() && t[i] == '"' {
        match parse_str(t, i + 1) {
            Some((s, j)) => Some((Some(s), j)),
            None => None,
        }
    } else {
        None
    }
}

fn parse_event(t: &Vec<char>, i: usize) -> (r: Option<(TerminalEvent, usize)>)
    requires
        i <= t.len(),
    ensures
        match r {
            Some((e, j)) => event_from(t@, i as int) == Some((e@, j as int)) && j <= t.len(),
            None => event_from(t@, i as int) is None,
        },
{
    let k_ts = "{\"timestamp\":";
    let k_in = ",\"input\":";
    let k_out = ",\"output\":";
    if !lit_at_exec(t, i, k_ts) {
        return None;
    }
    let p = i + k_ts.unicode_len();
    let (ts, j) = match parse_number(t, p) {
        Some(x) => x,
        None => return None,
    };
    if !lit_at_exec(t, j, k_in) {
        return None;
    }
    let (pi, k) = match parse_payload(t, j + k_in.unicode_len()) {
        Some(x) => x,
        None => return None,
    };
    if !lit_at_exec(t, k, k_out) {
        return None;
    }
    let (po, m) = match parse_payload(t, k + k_out.unicode_len()) {
        Some(x) => x,
        None => return None,
    };
    if !(m < t.len() && t[m] == '}') {
        return None;
    }
    match (pi, po) {
        (Some(s), None) => Some((TerminalEvent { timestamp: ts, source: Source::Input, payload: s }, m + 1)),
        (None, Some(s)) => Some((TerminalEvent { timestamp: ts, source: Source::Output, payload: s }, m + 1)),
        _ => None,
    }
}

/// Reads event objects from `i` up to and including the closing bracket.
fn parse_events(t: &Vec<char>, i: usize) -> (r: Option<(Vec<TerminalEvent>, usize)>)
    requires
        i <= t.len(),
    ensures
        match r {
            Some((v, j)) => events_from(t@, i as int) == Some((events_model(v@), j as int)),
            None => events_from(t@, i as int) is None,
        },
{
    let mut out: Vec<TerminalEvent> = Vec::new();
    let mut p: usize = i;
    assert(events_model(out@) + seq![] =~= seq![]);
    loop
        invariant
            i <= p <= t.len(),
            events_from(t@, i as int) == prepend(events_model(out@), events_from(t@, p as int)),
        decreases t.len() - p,
    {
        let (e, j) = match parse_event(t, p) {
            Some(x) => x,
            None => return None,
        };
        if j <= p || j >= t.len() {
            return None;
        }
        let ghost m = e@;
        proof {
            lemma_prepend_push(events_model(out@), m, events_from(t@, j + 1));
        }
        let c = t[j];
        if c != ']' && c != ',' {
            return None;
        }
        let ghost before = out@;
        out.push(e);
        proof {
            assert(events_model(out@) =~= events_model(before).push(m));
            assert(events_model(before) + seq![m] =~= events_model(before).push(m));
        }
        if c == ']' {
            return Some((out, j + 1));
        }
        p = j + 1;
    }
}

fn parse_log(t: &Vec<char>) -> (r: Option<Vec<TerminalEvent>>)
    ensures
        match r {
            Some(v) => parsed(t@) == Some(events_model(v@)),
            None => parsed(t@) is None,
        },
{
    if t.len() < 2 || t[0] != '[' {
        None
    } else if t[1] == ']' {
        if t.len() == 2 {
            let v: Vec<TerminalEvent> = Vec::new();
            assert(events_model(v@) =~= seq![]);
            Some(v)
        } else {
            None
        }
    } else {
        match parse_events(t, 1) {
            Some((v, j)) => if j == t.len() {
                Some(v)
            } else {
                None
            },
            None => None,
        }
    }
}

/// Reads a log from its persisted text form.
///
/// The text is accepted exactly when it is the text that `encode_log`
/// writes for some log, and then that log is returned.
pub fn decode_log(text: &str) -> (r: Result<Vec<TerminalEvent>, ErrorKind>)
    ensures
        match r {
            Ok(v) => encoded(events_model(v@)) == text@,
            Err(e) => e == ErrorKind::DecodeFailure && forall|l: Seq<EventModel>|
                encoded(l) != text@,
        },
{
    let t = chars_of(text);
    match parse_log(&t) {
        None => {
            proof {
                assert forall|l: Seq<EventModel>| encoded(l) != text@ by {
                    lemma_parse_encode(l);
                }
            }
            Err(ErrorKind::DecodeFailure)
        },
        Some(v) => {
            let back = encode_log(&v);
            let again = chars_of(back.as_str());
            if vec_eq(&again, &t) {
                Ok(v)
            } else {
                proof {
                    assert forall|l: Seq<EventModel>| encoded(l) != text@ by {
                        lemma_parse_encode(l);
                    }
                }
                Err(ErrorKind::DecodeFailure)
            }
        },
    }
}

pub(crate) fn vec_eq(a: &Vec<char>, b: &Vec<char>) -> (r: bool)
    ensures
        r == (a@ == b@),
{
    if a.len() != b.len() {
        return false;
    }
    let mut k: usize = 0;
    while k < a.len()
        invariant
            a.len() == b.len(),
            k <= a.len(),
            forall|j: int| 0 <= j < k ==> a@[j] == b@[j],
        decreases a.len() - k,
    {
        if a[k] != b[k] {
            return false;
        }
        k = k + 1;
    }
    assert(a@ =~= b@);
    true
}

} // verus!
