//! The drive client's text protocol, one command to a line:
//!
//! - `<linear> <rot>` drives (mm/s, rad/s), `stop` or `disable` stops;
//! - `lidar 1` and `lidar 0` spin and stop the turret;
//! - `frame <type> <payload..>`, in hex, sends one message to the MCU.
use vstd::prelude::*;

verus! {

// ---------------------------------------------------------------------------------------
// Words
// ---------------------------------------------------------------------------------------
/// White space, as Unicode's `White_Space` property has it.
pub open spec fn is_space(c: char) -> bool {
    ||| 0x09 <= c as int <= 0x0d
    ||| c as int == 0x20
    ||| c as int == 0x85
    ||| c as int == 0xa0
    ||| c as int == 0x1680
    ||| 0x2000 <= c as int <= 0x200a
    ||| c as int == 0x2028
    ||| c as int == 0x2029
    ||| c as int == 0x202f
    ||| c as int == 0x205f
    ||| c as int == 0x3000
}

/// How many characters stand before the first space.
pub open spec fn word_len(s: Seq<char>) -> nat
    decreases s.len(),
{
    if s.len() == 0 || is_space(s[0]) {
        0
    } else {
        1 + word_len(s.drop_first())
    }
}

/// A word is no longer than what it starts.
pub proof fn lemma_word_len(s: Seq<char>)
    ensures
        word_len(s) <= s.len(),
    decreases s.len(),
{
    if s.len() > 0 {
        lemma_word_len(s.drop_first());
    }
}

/// The words of a line: what stands between white space.
pub open spec fn words(s: Seq<char>) -> Seq<Seq<char>>
    decreases s.len(),
{
    if s.len() == 0 {
        Seq::empty()
    } else if is_space(s[0]) {
        words(s.drop_first())
    } else {
        proof {
            lemma_word_len(s);
        }
        seq![s.take(word_len(s) as int)] + words(s.skip(word_len(s) as int))
    }
}

fn space(c: char) -> (r: bool)
    ensures
        r == is_space(c),
{
    let u: u32 = c as u32;
    (0x09 <= u && u <= 0x0d) || u == 0x20 || u == 0x85 || u == 0xa0 || u == 0x1680 || (0x2000 <= u
        && u <= 0x200a) || u == 0x2028 || u == 0x2029 || u == 0x202f || u == 0x205f || u == 0x3000
}

/// The characters of a string.
fn characters(s: &str) -> (v: Vec<char>)
    ensures
        v@ == s@,
{
    let mut v: Vec<char> = Vec::new();
    for c in it: s.chars()
        invariant
            it.seq() == s@,
            v@ == s@.take(it.index() as int),
    {
        v.push(c);
        assert(v@ =~= s@.take(it.index() + 1));
    }
    assert(v@ =~= s@);
    v
}

/// The parts of `s` that the ranges cut out.
pub open spec fn parts(s: Seq<char>, ranges: Seq<(usize, usize)>) -> Seq<Seq<char>> {
    ranges.map_values(|r: (usize, usize)| s.subrange(r.0 as int, r.1 as int))
}

/// Where the words of `v` start and end.
fn word_ranges(v: &[char]) -> (out: Vec<(usize, usize)>)
    ensures
        parts(v@, out@) == words(v@),
        forall|k: int|
            0 <= k < out@.len() ==> (#[trigger] out@[k]).0 <= out@[k].1 && out@[k].1 <= v@.len(),
{
    let mut out: Vec<(usize, usize)> = Vec::new();
    let mut i: usize = 0;
    assert(v@.skip(0) =~= v@);
    assert(parts(v@, out@) =~= Seq::<Seq<char>>::empty());
    assert(parts(v@, out@) + words(v@) =~= words(v@));
    while i < v.len()
        invariant
            i <= v@.len(),
            parts(v@, out@) + words(v@.skip(i as int)) == words(v@),
            forall|k: int|
                0 <= k < out@.len() ==> (#[trigger] out@[k]).0 <= out@[k].1 && out@[k].1
                    <= v@.len(),
        decreases v@.len() - i,
    {
        let ghost rest = v@.skip(i as int);
        assert(rest.drop_first() =~= v@.skip(i + 1));
        if space(v[i]) {
            i += 1;
        } else {
            let mut j: usize = i;
            while j < v.len() && !space(v[j])
                invariant
                    i <= j <= v@.len(),
                    rest == v@.skip(i as int),
                    word_len(rest) == (j - i) + word_len(v@.skip(j as int)),
                decreases v@.len() - j,
            {
                assert(v@.skip(j as int).drop_first() =~= v@.skip(j + 1));
                j += 1;
            }
            assert(word_len(v@.skip(j as int)) == 0);
            assert(j > i);
            let ghost before = parts(v@, out@);
            out.push((i, j));
            proof {
                let word = v@.subrange(i as int, j as int);
                assert(parts(v@, out@) =~= before.push(word));
                assert(rest.take(j - i) =~= word);
                assert(rest.skip(j - i) =~= v@.skip(j as int));
                assert(words(rest) == seq![word] + words(v@.skip(j as int)));
                assert(parts(v@, out@) + words(v@.skip(j as int)) =~= before + words(rest));
            }
            i = j;
        }
    }
    assert(parts(v@, out@) + Seq::<Seq<char>>::empty() =~= parts(v@, out@));
    out
}

/// Whether the characters from `i` to `j` are those of `lit`.
fn is_word(v: &[char], i: usize, j: usize, lit: &str) -> (r: bool)
    requires
        i <= j <= v@.len(),
    ensures
        r == (v@.subrange(i as int, j as int) == lit@),
{
    let l: Vec<char> = characters(lit);
    let ghost word = v@.subrange(i as int, j as int);
    if j - i != l.len() {
        return false;
    }
    for k in 0..l.len()
        invariant
            l@ == lit@,
            i + l@.len() == j,
            j <= v@.len(),
            word == v@.subrange(i as int, j as int),
            forall|m: int| 0 <= m < k ==> word[m] == l@[m],
    {
        if v[i + k] != l[k] {
            assert(word[k as int] != l@[k as int]);
            return false;
        }
    }
    assert(word =~= lit@);
    true
}

// ---------------------------------------------------------------------------------------
// Hex
// ---------------------------------------------------------------------------------------
/// The value of a hex digit.
pub open spec fn hex_digit(c: char) -> Option<int> {
    if '0' <= c <= '9' {
        Some(c as int - '0' as int)
    } else if 'a' <= c <= 'f' {
        Some(c as int - 'a' as int + 10)
    } else if 'A' <= c <= 'F' {
        Some(c as int - 'A' as int + 10)
    } else {
        None
    }
}

fn digit(c: char) -> (r: Option<u8>)
    ensures
        (match r {
            Some(d) => Some(d as int),
            None => None,
        }) == hex_digit(c),
        r matches Some(d) ==> d < 16,
{
    let u: u32 = c as u32;
    if 0x30 <= u && u <= 0x39 {
        Some((u - 0x30) as u8)
    } else if 0x61 <= u && u <= 0x66 {
        Some((u - 0x61 + 10) as u8)
    } else if 0x41 <= u && u <= 0x46 {
        Some((u - 0x41 + 10) as u8)
    } else {
        None
    }
}

/// `s` without any `0x` in front.
pub open spec fn without_0x(s: Seq<char>) -> Seq<char>
    decreases s.len(),
{
    if s.len() >= 2 && s[0] == '0' && s[1] == 'x' {
        without_0x(s.skip(2))
    } else {
        s
    }
}

/// Where the characters from `i` to `j` start once any `0x` in front is taken off.
fn skip_0x(v: &[char], i: usize, j: usize) -> (k: usize)
    requires
        i <= j <= v@.len(),
    ensures
        i <= k <= j,
        v@.subrange(k as int, j as int) == without_0x(v@.subrange(i as int, j as int)),
{
    let mut k: usize = i;
    while j - k >= 2 && v[k] == '0' && v[k + 1] == 'x'
        invariant
            i <= k <= j <= v@.len(),
            without_0x(v@.subrange(k as int, j as int)) == without_0x(
                v@.subrange(i as int, j as int),
            ),
        decreases j - k,
    {
        assert(v@.subrange(k as int, j as int).skip(2) =~= v@.subrange(k + 2, j as int));
        k += 2;
    }
    k
}

/// A byte written as two characters: two hex digits, or a plus sign and one.
pub open spec fn hex_pair(a: char, b: char) -> Option<u8> {
    match hex_digit(b) {
        Some(low) => if a == '+' {
            Some(low as u8)
        } else {
            match hex_digit(a) {
                Some(high) => Some((16 * high + low) as u8),
                None => None,
            }
        },
        None => None,
    }
}

/// Bytes written one after the other, two characters each.
pub open spec fn hex_pairs(s: Seq<char>) -> Option<Seq<u8>>
    decreases s.len(),
{
    if s.len() == 0 {
        Some(Seq::empty())
    } else if s.len() == 1 {
        None
    } else {
        match (hex_pair(s[0], s[1]), hex_pairs(s.skip(2))) {
            (Some(b), Some(rest)) => Some(seq![b] + rest),
            _ => None,
        }
    }
}

/// The bytes written in `tokens`, apart (`aa bb cc`) or together (`aabbcc`), each token with
/// or without `0x`.
pub open spec fn hex_bytes(tokens: Seq<Seq<char>>) -> Option<Seq<u8>>
    decreases tokens.len(),
{
    if tokens.len() == 0 {
        Some(Seq::empty())
    } else {
        match (hex_pairs(without_0x(tokens[0])), hex_bytes(tokens.drop_first())) {
            (Some(b), Some(rest)) => Some(b + rest),
            _ => None,
        }
    }
}

/// `front` and then `rest`, where there is a rest.
pub open spec fn joined(front: Seq<u8>, rest: Option<Seq<u8>>) -> Option<Seq<u8>> {
    match rest {
        Some(bytes) => Some(front + bytes),
        None => None,
    }
}

/// Append the bytes that are written from `i` to `j`, if they are well written.
fn push_pairs(v: &[char], i: usize, j: usize, out: &mut Vec<u8>) -> (ok: bool)
    requires
        i <= j <= v@.len(),
    ensures
        ok == hex_pairs(v@.subrange(i as int, j as int)) is Some,
        ok ==> Some(final(out)@) == joined(
            old(out)@,
            hex_pairs(v@.subrange(i as int, j as int)),
        ),
{
    let ghost whole = hex_pairs(v@.subrange(i as int, j as int));
    let ghost before = out@;
    let mut k: usize = i;
    proof {
        if let Some(b) = whole {
            assert(joined(before, whole) == joined(out@, whole));
        }
    }
    while k < j
        invariant
            i <= k <= j <= v@.len(),
            joined(before, whole) == joined(
                out@,
                hex_pairs(v@.subrange(k as int, j as int)),
            ),
            before == old(out)@,
            whole == hex_pairs(v@.subrange(i as int, j as int)),
        decreases j - k,
    {
        let ghost rest = v@.subrange(k as int, j as int);
        if j - k < 2 {
            return false;
        }
        assert(rest.skip(2) =~= v@.subrange(k + 2, j as int));
        match digit(v[k + 1]) {
            None => {
                return false;
            },
            Some(low) => {
                let b: u8 = if v[k] == '+' {
                    low
                } else {
                    match digit(v[k]) {
                        None => {
                            return false;
                        },
                        Some(high) => 16 * high + low,
                    }
                };
                let ghost so_far = out@;
                out.push(b);
                proof {
                    if let Some(more) = hex_pairs(rest.skip(2)) {
                        assert(so_far + (seq![b] + more) =~= out@ + more);
                    }
                }
            },
        }
        k += 2;
    }
    assert(v@.subrange(k as int, j as int) =~= Seq::<char>::empty());
    assert(out@ + Seq::<u8>::empty() =~= out@);
    true
}

/// Parse the words from number `from` on as hex bytes.
fn parse_hex(v: &[char], ranges: &[(usize, usize)], from: usize) -> (r: Option<Vec<u8>>)
    requires
        from <= ranges@.len(),
        forall|k: int|
            0 <= k < ranges@.len() ==> (#[trigger] ranges@[k]).0 <= ranges@[k].1 && ranges@[k].1
                <= v@.len(),
    ensures
        (match r {
            Some(bytes) => Some(bytes@),
            None => None,
        }) == hex_bytes(parts(v@, ranges@).skip(from as int)),
{
    let ghost tokens = parts(v@, ranges@);
    let ghost whole = hex_bytes(tokens.skip(from as int));
    let mut out: Vec<u8> = Vec::new();
    let mut n: usize = from;
    proof {
        if let Some(bytes) = whole {
            assert(out@ + bytes =~= bytes);
        }
    }
    while n < ranges.len()
        invariant
            from <= n <= ranges@.len(),
            tokens == parts(v@, ranges@),
            whole == hex_bytes(tokens.skip(from as int)),
            whole == joined(out@, hex_bytes(tokens.skip(n as int))),
            forall|k: int|
                0 <= k < ranges@.len() ==> (#[trigger] ranges@[k]).0 <= ranges@[k].1
                    && ranges@[k].1 <= v@.len(),
        decreases ranges@.len() - n,
    {
        let (i, j): (usize, usize) = ranges[n];
        let ghost rest = tokens.skip(n as int);
        let ghost so_far = out@;
        assert(rest[0] == v@.subrange(i as int, j as int));
        assert(rest.drop_first() =~= tokens.skip(n + 1));
        let k: usize = skip_0x(v, i, j);
        if !push_pairs(v, k, j, &mut out) {
            return None;
        }
        proof {
            let bytes = hex_pairs(without_0x(rest[0]))->0;
            if let Some(more) = hex_bytes(rest.drop_first()) {
                assert(so_far + (bytes + more) =~= out@ + more);
            }
        }
        n += 1;
    }
    assert(tokens.skip(n as int) =~= Seq::<Seq<char>>::empty());
    assert(out@ + Seq::<u8>::empty() =~= out@);
    Some(out)
}

/// The number written in hex digits, most significant first.
pub open spec fn hex_value(s: Seq<char>) -> Option<int>
    decreases s.len(),
{
    if s.len() == 0 {
        Some(0)
    } else {
        match (hex_value(s.drop_last()), hex_digit(s.last())) {
            (Some(high), Some(low)) => Some(16 * high + low),
            _ => None,
        }
    }
}

/// The byte written in hex digits, of which there is at least one.
pub open spec fn hex_byte(digits: Seq<char>) -> Option<u8> {
    match hex_value(digits) {
        Some(n) => if digits.len() > 0 && n <= 255 {
            Some(n as u8)
        } else {
            None
        },
        None => None,
    }
}

/// A message type: a byte in hex digits, after any `0x` and an optional plus sign.
pub open spec fn hex_type(s: Seq<char>) -> Option<u8> {
    let t = without_0x(s);
    if t.len() > 0 && t[0] == '+' {
        hex_byte(t.skip(1))
    } else {
        hex_byte(t)
    }
}

proof fn lemma_hex_value_grows(s: Seq<char>, k: int)
    requires
        0 <= k <= s.len(),
    ensures
        match (hex_value(s.take(k)), hex_value(s)) {
            (Some(a), Some(b)) => 0 <= a <= b,
            (Some(a), None) => 0 <= a,
            (None, r) => r is None,
        },
    decreases s.len(),
{
    if k == s.len() {
        assert(s.take(k) =~= s);
        if s.len() > 0 {
            lemma_hex_value_grows(s.drop_last(), k - 1);
        }
    } else {
        lemma_hex_value_grows(s.drop_last(), k);
        assert(s.drop_last().take(k) =~= s.take(k));
    }
}

/// Parse the characters from `i` to `j` as a message type.
fn parse_type(v: &[char], i: usize, j: usize) -> (r: Option<u8>)
    requires
        i <= j <= v@.len(),
    ensures
        r == hex_type(v@.subrange(i as int, j as int)),
{
    let mut k: usize = skip_0x(v, i, j);
    let ghost t = v@.subrange(k as int, j as int);
    if k < j && v[k] == '+' {
        k += 1;
        assert(t.skip(1) =~= v@.subrange(k as int, j as int));
    }
    if k == j {
        return None;
    }
    let ghost digits = v@.subrange(k as int, j as int);
    assert(hex_type(v@.subrange(i as int, j as int)) == hex_byte(digits));
    let mut n: u32 = 0;
    let mut m: usize = k;
    assert(digits.take(0) =~= Seq::<char>::empty());
    while m < j
        invariant
            k <= m <= j <= v@.len(),
            digits == v@.subrange(k as int, j as int),
            hex_type(v@.subrange(i as int, j as int)) == hex_byte(digits),
            hex_value(digits.take(m - k)) == Some(n as int),
            n <= 255,
        decreases j - m,
    {
        let ghost upto = digits.take(m - k + 1);
        proof {
            assert(upto.drop_last() =~= digits.take(m - k));
            assert(upto.last() == v@[m as int]);
            lemma_hex_value_grows(digits, m - k + 1);
        }
        match digit(v[m]) {
            None => {
                return None;
            },
            Some(d) => {
                n = 16 * n + d as u32;
                if n > 255 {
                    return None;
                }
            },
        }
        m += 1;
    }
    assert(digits.take(j - k) =~= digits);
    Some(n as u8)
}

// ---------------------------------------------------------------------------------------
// Commands
// ---------------------------------------------------------------------------------------
/// What a line asks for.
#[derive(Debug)]
pub enum Control {
    /// A blank line.
    Nothing,
    /// Stop driving.
    Stop,
    /// Send a message to the MCU.
    Frame { typ: u8, payload: Vec<u8> },
    /// A message that is not well written.
    BadFrame,
    /// Spin or stop the turret.
    Lidar(bool),
    /// Drive, at speeds that are yet to be read as numbers.
    Drive { linear: String, rot: Option<String> },
}

/// What a line asks for, over characters and bytes.
pub enum ControlView {
    Nothing,
    Stop,
    Frame(u8, Seq<u8>),
    BadFrame,
    Lidar(bool),
    Drive(Seq<char>, Option<Seq<char>>),
}

impl View for Control {
    type V = ControlView;

    open spec fn view(&self) -> ControlView {
        match *self {
            Control::Nothing => ControlView::Nothing,
            Control::Stop => ControlView::Stop,
            Control::Frame { typ, payload } => ControlView::Frame(typ, payload@),
            Control::BadFrame => ControlView::BadFrame,
            Control::Lidar(on) => ControlView::Lidar(on),
            Control::Drive { linear, rot } => ControlView::Drive(
                linear@,
                match rot {
                    Some(r) => Some(r@),
                    None => None,
                },
            ),
        }
    }
}

/// The command that the words of a line make.
pub open spec fn command_of(w: Seq<Seq<char>>) -> ControlView {
    if w.len() == 0 {
        ControlView::Nothing
    } else if w.len() == 1 && (w[0] == "stop"@ || w[0] == "disable"@) {
        ControlView::Stop
    } else if w[0] == "frame"@ {
        match (
            if w.len() > 1 {
                hex_type(w[1])
            } else {
                None
            },
            hex_bytes(w.skip(2)),
        ) {
            (Some(typ), Some(payload)) => ControlView::Frame(typ, payload),
            _ => ControlView::BadFrame,
        }
    } else if w[0] == "lidar"@ {
        ControlView::Lidar(w.len() > 1 && w[1] != "0"@)
    } else {
        ControlView::Drive(
            w[0],
            if w.len() > 1 {
                Some(w[1])
            } else {
                None
            },
        )
    }
}

/// What a line asks for.
pub fn parse_control(line: &str) -> (c: Control)
    ensures
        c@ == command_of(words(line@)),
{
    let v: Vec<char> = characters(line);
    let w: Vec<(usize, usize)> = word_ranges(&v);
    let ghost all = words(line@);
    assert(all == parts(v@, w@));
    if w.len() == 0 {
        return Control::Nothing;
    }
    let (i, j): (usize, usize) = w[0];
    assert(all[0] == v@.subrange(i as int, j as int));
    if w.len() == 1 && (is_word(&v, i, j, "stop") || is_word(&v, i, j, "disable")) {
        return Control::Stop;
    }
    if is_word(&v, i, j, "frame") {
        if w.len() == 1 {
            return Control::BadFrame;
        }
        let (a, b): (usize, usize) = w[1];
        assert(all[1] == v@.subrange(a as int, b as int));
        return match (parse_type(&v, a, b), parse_hex(&v, &w, 2)) {
            (Some(typ), Some(payload)) => Control::Frame { typ, payload },
            _ => Control::BadFrame,
        };
    }
    if is_word(&v, i, j, "lidar") {
        if w.len() == 1 {
            return Control::Lidar(false);
        }
        let (a, b): (usize, usize) = w[1];
        assert(all[1] == v@.subrange(a as int, b as int));
        return Control::Lidar(!is_word(&v, a, b, "0"));
    }
    let linear: String = line.substring_char(i, j).to_owned();
    if w.len() == 1 {
        return Control::Drive { linear, rot: None };
    }
    let (a, b): (usize, usize) = w[1];
    assert(all[1] == v@.subrange(a as int, b as int));
    let rot: String = line.substring_char(a, b).to_owned();
    Control::Drive { linear, rot: Some(rot) }
}

// ---------------------------------------------------------------------------------------
// What holds of every line
// ---------------------------------------------------------------------------------------
/// All of `s` is white space.
pub open spec fn blank(s: Seq<char>) -> bool {
    forall|i: int| 0 <= i < s.len() ==> is_space(#[trigger] s[i])
}

proof fn lemma_blank_has_no_words(s: Seq<char>)
    requires
        blank(s),
    ensures
        words(s) == Seq::<Seq<char>>::empty(),
    decreases s.len(),
{
    if s.len() > 0 {
        let rest = s.drop_first();
        assert forall|i: int| 0 <= i < rest.len() implies is_space(#[trigger] rest[i]) by {
            assert(rest[i] == s[i + 1]);
        }
        lemma_blank_has_no_words(rest);
    }
}

proof fn lemma_word_ends_at_blank(s: Seq<char>, after: Seq<char>)
    requires
        blank(after),
    ensures
        word_len(s + after) == word_len(s),
    decreases s.len(),
{
    if s.len() > 0 {
        assert((s + after).drop_first() =~= s.drop_first() + after);
        lemma_word_ends_at_blank(s.drop_first(), after);
    } else {
        assert(s + after =~= after);
    }
}

/// White space around a line does not matter.
pub proof fn law_space_around_a_line_is_ignored(before: Seq<char>, s: Seq<char>, after: Seq<char>)
    requires
        blank(before),
        blank(after),
    ensures
        words(before + s + after) == words(s),
    decreases before.len() + s.len(),
{
    let all = before + s + after;
    if before.len() > 0 {
        let rest = before.drop_first();
        assert forall|i: int| 0 <= i < rest.len() implies is_space(#[trigger] rest[i]) by {
            assert(rest[i] == before[i + 1]);
        }
        assert(all[0] == before[0]);
        assert(all.drop_first() =~= rest + s + after);
        law_space_around_a_line_is_ignored(rest, s, after);
    } else if s.len() == 0 {
        assert(all =~= after);
        lemma_blank_has_no_words(after);
    } else {
        assert(all =~= s + after);
        if is_space(s[0]) {
            assert(all.drop_first() =~= before + s.drop_first() + after);
            law_space_around_a_line_is_ignored(before, s.drop_first(), after);
        } else {
            let n = word_len(s) as int;
            lemma_word_ends_at_blank(s, after);
            lemma_word_len(s);
            assert(all.take(n) =~= s.take(n));
            assert(all.skip(n) =~= before + s.skip(n) + after);
            law_space_around_a_line_is_ignored(before, s.skip(n), after);
        }
    }
}

proof fn lemma_hex_pairs_of_concat(a: Seq<char>, b: Seq<char>)
    requires
        a.len() % 2 == 0,
    ensures
        hex_pairs(a + b) == (match hex_pairs(a) {
            Some(bytes) => joined(bytes, hex_pairs(b)),
            None => None,
        }),
    decreases a.len(),
{
    if a.len() == 0 {
        assert(a + b =~= b);
        if let Some(bytes) = hex_pairs(b) {
            assert(Seq::<u8>::empty() + bytes =~= bytes);
        }
    } else {
        assert((a + b).skip(2) =~= a.skip(2) + b);
        lemma_hex_pairs_of_concat(a.skip(2), b);
        if let (Some(x), Some(front), Some(rest)) = (
            hex_pair(a[0], a[1]),
            hex_pairs(a.skip(2)),
            hex_pairs(b),
        ) {
            assert(seq![x] + (front + rest) =~= (seq![x] + front) + rest);
        }
    }
}

/// Hex bytes may be written together or apart: `aabb` is `aa bb`.
pub proof fn law_bytes_may_be_written_together(a: Seq<char>, b: Seq<char>, more: Seq<Seq<char>>)
    requires
        a.len() >= 2,
        a.len() % 2 == 0,
        without_0x(a) == a,
        without_0x(b) == b,
    ensures
        hex_bytes(seq![a + b] + more) == hex_bytes(seq![a, b] + more),
{
    let ab = a + b;
    let together = seq![ab] + more;
    let apart = seq![a, b] + more;
    assert(ab[0] == a[0] && ab[1] == a[1]);
    assert(without_0x(ab) == ab) by {
        if a[0] == '0' && a[1] == 'x' {
            lemma_without_0x_is_no_longer(a.skip(2));
        }
    }
    assert(together.drop_first() =~= more);
    assert(apart.drop_first() =~= seq![b] + more);
    assert((seq![b] + more).drop_first() =~= more);
    assert(together[0] == ab && apart[0] == a && (seq![b] + more)[0] == b);
    reveal_with_fuel(hex_bytes, 3);
    lemma_hex_pairs_of_concat(a, b);
    if let (Some(x), Some(y), Some(z)) = (hex_pairs(a), hex_pairs(b), hex_bytes(more)) {
        assert((x + y) + z =~= x + (y + z));
    }
}

proof fn lemma_without_0x_is_no_longer(s: Seq<char>)
    ensures
        without_0x(s).len() <= s.len(),
    decreases s.len(),
{
    if s.len() >= 2 {
        lemma_without_0x_is_no_longer(s.skip(2));
    }
}

/// The 25 characters that are white space.
pub proof fn law_white_space(c: char)
    ensures
        is_space(c) <==> {
            let u = c as int;
            ||| u == 0x09 || u == 0x0a || u == 0x0b || u == 0x0c || u == 0x0d || u == 0x20
            ||| u == 0x85 || u == 0xa0 || u == 0x1680
            ||| u == 0x2000 || u == 0x2001 || u == 0x2002 || u == 0x2003 || u == 0x2004 || u
                == 0x2005
            ||| u == 0x2006 || u == 0x2007 || u == 0x2008 || u == 0x2009 || u == 0x200a
            ||| u == 0x2028 || u == 0x2029 || u == 0x202f || u == 0x205f || u == 0x3000
        },
{
}

/// No character of `s` is white space.
pub open spec fn unbroken(s: Seq<char>) -> bool {
    forall|i: int| 0 <= i < s.len() ==> !is_space(#[trigger] s[i])
}

proof fn lemma_unbroken_word_len(w: Seq<char>, rest: Seq<char>)
    requires
        unbroken(w),
        rest.len() == 0 || is_space(rest[0]),
    ensures
        word_len(w + rest) == w.len(),
    decreases w.len(),
{
    let s = w + rest;
    if w.len() > 0 {
        assert(s[0] == w[0]);
        assert(s.drop_first() =~= w.drop_first() + rest);
        assert forall|i: int| 0 <= i < w.drop_first().len() implies !is_space(
            #[trigger] w.drop_first()[i],
        ) by {
            assert(w.drop_first()[i] == w[i + 1]);
        }
        lemma_unbroken_word_len(w.drop_first(), rest);
    } else {
        assert(s =~= rest);
    }
}

/// A run of characters that are no white space is one word, also where white space and more
/// words follow it. White space is part of no word, and an empty line has none.
pub proof fn law_words_stand_between_white_space(w: Seq<char>, c: char, rest: Seq<char>)
    requires
        w.len() > 0,
        unbroken(w),
        is_space(c),
    ensures
        words(Seq::empty()) == Seq::<Seq<char>>::empty(),
        words(w) == seq![w],
        words(seq![c] + rest) == words(rest),
        words(w + (seq![c] + rest)) == seq![w] + words(rest),
{
    let n = w.len() as int;
    let tail = seq![c] + rest;
    assert(tail.drop_first() =~= rest);
    lemma_unbroken_word_len(w, Seq::empty());
    assert(w + Seq::<char>::empty() =~= w);
    assert(w.take(n) =~= w);
    assert(w.skip(n) =~= Seq::<char>::empty());
    assert(words(Seq::empty()) == Seq::<Seq<char>>::empty());
    assert(words(w) =~= seq![w]);
    lemma_unbroken_word_len(w, tail);
    let s = w + tail;
    assert(s[0] == w[0]);
    assert(s.take(n) =~= w);
    assert(s.skip(n) =~= tail);
}

/// The hex digits and their values: `0` to `9`, and `a` to `f` in either case.
pub proof fn law_hex_digits(c: char, v: int)
    ensures
        hex_digit(c) == Some(v) <==> {
            ||| 0 <= v < 10 && c as int == 0x30 + v
            ||| 10 <= v < 16 && (c as int == 0x61 + (v - 10) || c as int == 0x41 + (v - 10))
        },
{
}

/// The digit that stands for `v`.
pub open spec fn digit_of(v: int) -> char {
    seq!['0', '1', '2', '3', '4', '5', '6', '7', '8', '9', 'a', 'b', 'c', 'd', 'e', 'f'][v]
}

/// `bytes` written in hex, two digits each.
pub open spec fn written(bytes: Seq<u8>) -> Seq<char> {
    Seq::new(
        2 * bytes.len(),
        |i: int|
            if i % 2 == 0 {
                digit_of(bytes[i / 2] as int / 16)
            } else {
                digit_of(bytes[i / 2] as int % 16)
            },
    )
}

proof fn lemma_digit_of(v: int)
    requires
        0 <= v < 16,
    ensures
        hex_digit(digit_of(v)) == Some(v),
        digit_of(v) != 'x',
        digit_of(v) != '+',
        v == 0 ==> digit_of(v) == '0',
{
    let all = seq![
        '0',
        '1',
        '2',
        '3',
        '4',
        '5',
        '6',
        '7',
        '8',
        '9',
        'a',
        'b',
        'c',
        'd',
        'e',
        'f',
    ];
    assert(all[0] == '0' && all[1] == '1' && all[2] == '2' && all[3] == '3' && all[4] == '4'
        && all[5] == '5' && all[6] == '6' && all[7] == '7');
    assert(all[8] == '8' && all[9] == '9' && all[10] == 'a' && all[11] == 'b' && all[12] == 'c'
        && all[13] == 'd' && all[14] == 'e' && all[15] == 'f');
    if v < 8 {
        assert(v == 0 || v == 1 || v == 2 || v == 3 || v == 4 || v == 5 || v == 6 || v == 7);
    } else {
        assert(v == 8 || v == 9 || v == 10 || v == 11 || v == 12 || v == 13 || v == 14 || v == 15);
    }
}

/// Bytes that are written in hex are read back, with or without `0x` in front.
pub proof fn law_written_bytes_are_read_back(bytes: Seq<u8>)
    ensures
        hex_pairs(written(bytes)) == Some(bytes),
        hex_bytes(seq![written(bytes)]) == Some(bytes),
        hex_bytes(seq![seq!['0', 'x'] + written(bytes)]) == Some(bytes),
    decreases bytes.len(),
{
    let s = written(bytes);
    if bytes.len() == 0 {
        assert(bytes =~= Seq::<u8>::empty());
    } else {
        let rest = bytes.drop_first();
        let b = bytes[0] as int;
        law_written_bytes_are_read_back(rest);
        assert(s[0] == digit_of(b / 16) && s[1] == digit_of(b % 16));
        assert forall|i: int| 0 <= i < 2 * rest.len() implies s[i + 2] == written(rest)[i] by {
            assert((i + 2) / 2 == i / 2 + 1);
            assert(rest[i / 2] == bytes[i / 2 + 1]);
        }
        assert(s.skip(2) =~= written(rest));
        lemma_digit_of(b / 16);
        lemma_digit_of(b % 16);
        assert(seq![bytes[0]] + rest =~= bytes);
    }
    assert(without_0x(s) == s);
    let prefixed = seq!['0', 'x'] + s;
    assert(prefixed.skip(2) =~= s);
    assert(without_0x(prefixed) == s);
    assert(seq![s].drop_first() =~= Seq::<Seq<char>>::empty());
    assert(seq![prefixed].drop_first() =~= Seq::<Seq<char>>::empty());
    assert(hex_bytes(Seq::empty()) == Some(Seq::<u8>::empty()));
    assert(bytes + Seq::<u8>::empty() =~= bytes);
    assert(seq![s][0] == s && seq![prefixed][0] == prefixed);
}

/// A byte is two characters: two hex digits, the first of which weighs 16, or a plus sign and a
/// hex digit. Anything else is none, and neither is an odd number of characters.
pub proof fn law_hex_bytes_are_pairs(a: char, b: char, rest: Seq<char>)
    ensures
        ({
            let s = seq![a, b] + rest;
            let more = hex_pairs(rest);
            &&& hex_pairs(seq![a]) is None
            &&& hex_pairs(Seq::empty()) == Some(Seq::<u8>::empty())
            &&& (hex_digit(a) matches Some(high) ==> (hex_digit(b) matches Some(low) ==> (
            more matches Some(bytes) ==> hex_pairs(s) == Some(
                seq![(16 * high + low) as u8] + bytes,
            ))))
            &&& a == '+' ==> (hex_digit(b) matches Some(low) ==> (more matches Some(bytes)
                ==> hex_pairs(s) == Some(seq![low as u8] + bytes)))
            &&& (more is None || hex_digit(b) is None || (a != '+' && hex_digit(a) is None)
                ==> hex_pairs(s) is None)
        }),
{
    let s = seq![a, b] + rest;
    assert(s.skip(2) =~= rest);
    assert(s[0] == a && s[1] == b);
}

/// The bytes of several words are the bytes of each, one after the other; one bad word spoils
/// all of them. Any `0x` in front of a word is taken off.
pub proof fn law_bytes_of_several_words(w: Seq<char>, more: Seq<Seq<char>>)
    ensures
        hex_bytes(Seq::empty()) == Some(Seq::<u8>::empty()),
        hex_pairs(without_0x(w)) matches Some(front) ==> (hex_bytes(more) matches Some(back)
            ==> hex_bytes(seq![w] + more) == Some(front + back)),
        hex_pairs(without_0x(w)) is None || hex_bytes(more) is None ==> hex_bytes(seq![w] + more)
            is None,
        without_0x(seq!['0', 'x'] + w) == without_0x(w),
        w.len() < 2 || w[0] != '0' || w[1] != 'x' ==> without_0x(w) == w,
{
    assert((seq![w] + more).drop_first() =~= more);
    assert((seq![w] + more)[0] == w);
    assert((seq!['0', 'x'] + w).skip(2) =~= w);
}

proof fn lemma_hex_value_of_front(c: char, s: Seq<char>)
    ensures
        hex_digit(c) == Some(0int) ==> hex_value(seq![c] + s) == hex_value(s),
        hex_digit(c) is None ==> hex_value(seq![c] + s) is None,
        hex_value(s) matches Some(n) ==> n >= 0,
        hex_digit(c) != Some(0int) && s.len() >= 2 ==> (hex_value(seq![c] + s) matches Some(n)
            ==> n >= 256),
    decreases s.len(),
{
    let t = seq![c] + s;
    if s.len() == 0 {
        assert(t =~= seq![c]);
        assert(t.drop_last() =~= Seq::<char>::empty());
        assert(hex_value(t.drop_last()) == Some(0int));
    } else {
        lemma_hex_value_of_front(c, s.drop_last());
        assert(t.drop_last() =~= seq![c] + s.drop_last());
        assert(t.last() == s.last());
        if s.len() == 2 {
            let two = t.drop_last();
            assert(two.drop_last() =~= seq![c]);
            assert(seq![c].drop_last() =~= Seq::<char>::empty());
            reveal_with_fuel(hex_value, 4);
            assert(two.drop_last().last() == c);
        }
    }
}

proof fn lemma_hex_value_of_two(c: char, d: char)
    ensures
        hex_value(Seq::empty()) == Some(0int),
        hex_value(seq![c]) == hex_digit(c),
        hex_digit(c) matches Some(v) ==> (hex_digit(d) matches Some(w) ==> hex_value(seq![c, d])
            == Some(16 * v + w)),
{
    let one = seq![c];
    let two = seq![c, d];
    assert(one.drop_last() =~= Seq::<char>::empty());
    assert(hex_value(Seq::empty()) == Some(0int));
    assert(one.last() == c);
    assert(hex_value(one) == hex_digit(c));
    assert(two.drop_last() =~= one);
    assert(two.last() == d);
}

/// A byte is written in one or two hex digits that weigh 16 and 1; zeros in front do not count,
/// and beyond two digits, or with anything but digits, it is none.
pub proof fn law_one_byte_in_hex(c: char, d: char, s: Seq<char>)
    ensures
        hex_byte(Seq::empty()) is None,
        hex_digit(c) matches Some(v) ==> hex_byte(seq![c]) == Some(v as u8),
        hex_digit(c) matches Some(v) ==> (hex_digit(d) matches Some(w) ==> hex_byte(seq![c, d])
            == Some((16 * v + w) as u8)),
        s.len() > 0 ==> hex_byte(seq!['0'] + s) == hex_byte(s),
        hex_digit(c) is None ==> hex_byte(seq![c] + s) is None && hex_byte(s.push(c)) is None,
        c != '0' && s.len() >= 2 ==> hex_byte(seq![c] + s) is None,
{
    lemma_hex_value_of_two(c, d);
    lemma_hex_value_of_front(c, s);
    lemma_hex_value_of_front('0', s);
    assert(s.push(c).drop_last() =~= s);
    assert(s.push(c).last() == c);
}

/// A message type is a byte in hex, with any `0x` in front and then one plus sign at most.
pub proof fn law_message_types_in_hex(s: Seq<char>)
    ensures
        hex_type(seq!['0', 'x'] + s) == hex_type(s),
        hex_type(seq!['+'] + s) == hex_byte(s),
        s.len() == 0 || (s[0] != '+' && s[0] != '0') ==> hex_type(s) == hex_byte(s),
        s.len() >= 2 && s[0] == '0' && s[1] != 'x' ==> hex_type(s) == hex_byte(s),
        s.len() == 1 && s[0] == '0' ==> hex_type(s) == hex_byte(s),
{
    let prefixed = seq!['0', 'x'] + s;
    assert(prefixed.skip(2) =~= s);
    assert(without_0x(prefixed) == without_0x(s));
    let signed = seq!['+'] + s;
    assert(signed[0] == '+');
    assert(without_0x(signed) == signed);
    assert(signed.skip(1) =~= s);
}

/// What the words of a line ask for. `stop` and `disable` stand alone; `frame` takes a type and
/// any number of bytes, all well written; `lidar` switches the turret on unless it stands alone
/// or before a `0`; anything else is a speed, or two.
pub proof fn law_commands(w: Seq<Seq<char>>)
    ensures
        ({
            let stop = seq!['s', 't', 'o', 'p'];
            let disable = seq!['d', 'i', 's', 'a', 'b', 'l', 'e'];
            let frame = seq!['f', 'r', 'a', 'm', 'e'];
            let lidar = seq!['l', 'i', 'd', 'a', 'r'];
            let c = command_of(w);
            &&& c is Nothing <==> w.len() == 0
            &&& c is Stop <==> w.len() == 1 && (w[0] == stop || w[0] == disable)
            &&& c is Frame || c is BadFrame <==> w.len() > 0 && w[0] == frame
            &&& w.len() > 1 && w[0] == frame ==> (hex_type(w[1]) matches Some(typ) ==> (hex_bytes(
                w.skip(2),
            ) matches Some(p) ==> c == ControlView::Frame(typ, p)))
            &&& w.len() > 0 && w[0] == frame && (w.len() == 1 || hex_type(w[1]) is None
                || hex_bytes(w.skip(2)) is None) ==> c is BadFrame
            &&& c is Lidar <==> w.len() > 0 && w[0] == lidar
            &&& w.len() == 1 && w[0] == lidar ==> c == ControlView::Lidar(false)
            &&& w.len() > 1 && w[0] == lidar ==> c == ControlView::Lidar(w[1] != seq!['0'])
            &&& c is Drive && w.len() == 1 ==> c == ControlView::Drive(w[0], None)
            &&& c is Drive && w.len() > 1 ==> c == ControlView::Drive(w[0], Some(w[1]))
        }),
{
    reveal_strlit("stop");
    reveal_strlit("disable");
    reveal_strlit("frame");
    reveal_strlit("lidar");
    reveal_strlit("0");
    assert("stop"@ =~= seq!['s', 't', 'o', 'p']);
    assert("disable"@ =~= seq!['d', 'i', 's', 'a', 'b', 'l', 'e']);
    assert("frame"@ =~= seq!['f', 'r', 'a', 'm', 'e']);
    assert("lidar"@ =~= seq!['l', 'i', 'd', 'a', 'r']);
    assert("0"@ =~= seq!['0']);
    assert("stop"@.len() == 4 && "disable"@.len() == 7);
    assert("frame"@[0] == 'f' && "lidar"@[0] == 'l');
}

/// What a line asks for is what its words do: the message with its bytes, the turret, or the
/// speeds as they are written.
pub proof fn law_line_is_parsed_by_its_words(line: &str, c: Control)
    requires
        call_ensures(parse_control, (line,), c),
    ensures
        match command_of(words(line@)) {
            ControlView::Nothing => c is Nothing,
            ControlView::Stop => c is Stop,
            ControlView::Frame(t, p) => c matches Control::Frame { typ, payload } && typ == t
                && payload@ == p,
            ControlView::BadFrame => c is BadFrame,
            ControlView::Lidar(on) => c == Control::Lidar(on),
            ControlView::Drive(l, r) => c matches Control::Drive { linear, rot } && linear@ == l
                && (match rot {
                Some(s) => r == Some(s@),
                None => r is None,
            }),
        },
{
}

} // verus!
