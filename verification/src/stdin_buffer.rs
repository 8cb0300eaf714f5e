//! Stdin input buffer that splits raw terminal input into complete sequences.
//!
//! Stdin data can arrive in partial chunks, especially for escape sequences
//! such as mouse events. Without buffering, a partial sequence could be
//! misread as ordinary key presses.

use vstd::prelude::*;
use vstd::utf8::*;

use crate::bytes::{copy_range, find_subsequence, find_from, opt_index, utf8_lossy, lossy_string};

verus! {

/// Result of a sequence completeness check.
pub enum SeqStatus {
    Complete,
    Incomplete,
    NotEscape,
}

pub open spec fn is_digit(b: u8) -> bool {
    48 <= b <= 57
}

/// Number of `;` bytes in `s`.
pub open spec fn count_semicolons(s: Seq<u8>) -> nat
    decreases s.len(),
{
    if s.len() == 0 {
        0
    } else {
        count_semicolons(s.drop_last()) + if s.last() == 59 {
            1nat
        } else {
            0nat
        }
    }
}

/// The parameters of an SGR mouse report (`B;X;Y`): digits and `;` only,
/// no empty group in front of a `;`, and three groups in all (a trailing
/// `;` closes the last group).
pub open spec fn sgr_params_complete(inner: Seq<u8>) -> bool {
    &&& forall|k: int| 0 <= k < inner.len() ==> is_digit(#[trigger] inner[k]) || inner[k] == 59
    &&& inner.len() > 0 ==> inner[0] != 59
    &&& forall|k: int| 0 < k < inner.len() && #[trigger] inner[k] == 59 ==> inner[k - 1] != 59
    &&& count_semicolons(inner) + (if inner.len() > 0 && inner.last() != 59 {
        1int
    } else {
        0int
    }) == 3
}

/// An SGR mouse payload `<B;X;Y` followed by `M` or `m`.
pub open spec fn sgr_mouse_complete(payload: Seq<u8>) -> bool {
    payload.len() >= 2 && (payload.last() == 77 || payload.last() == 109) && sgr_params_complete(
        payload.subrange(1, payload.len() - 1),
    )
}

/// CSI sequences: ESC [ ... final byte in 0x40..=0x7E.
pub open spec fn csi_status(d: Seq<u8>) -> SeqStatus {
    if d.len() < 3 {
        SeqStatus::Incomplete
    } else if 0x40 <= d.last() <= 0x7e {
        if d[2] == 60 {
            if sgr_mouse_complete(d.subrange(2, d.len() as int)) {
                SeqStatus::Complete
            } else {
                SeqStatus::Incomplete
            }
        } else {
            SeqStatus::Complete
        }
    } else {
        SeqStatus::Incomplete
    }
}

/// OSC sequences end with ST (ESC \) or BEL.
pub open spec fn osc_status(d: Seq<u8>) -> SeqStatus {
    if d.len() >= 2 && (d.last() == 7 || (d.len() >= 3 && d[d.len() - 2] == 27 && d.last() == 92)) {
        SeqStatus::Complete
    } else {
        SeqStatus::Incomplete
    }
}

/// DCS/APC sequences end with ST (ESC \).
pub open spec fn string_terminator_status(d: Seq<u8>) -> SeqStatus {
    if d.len() >= 4 && d[d.len() - 2] == 27 && d.last() == 92 {
        SeqStatus::Complete
    } else {
        SeqStatus::Incomplete
    }
}

/// Whether `d` is a complete escape sequence, a prefix of one, or no escape.
pub open spec fn seq_status(d: Seq<u8>) -> SeqStatus {
    if d.len() == 0 || d[0] != 27 {
        SeqStatus::NotEscape
    } else if d.len() == 1 {
        SeqStatus::Incomplete
    } else if d[1] == 91 {
        if d.len() >= 3 && d[2] == 77 {
            if d.len() >= 6 {
                SeqStatus::Complete
            } else {
                SeqStatus::Incomplete
            }
        } else {
            csi_status(d)
        }
    } else if d[1] == 93 {
        osc_status(d)
    } else if d[1] == 80 || d[1] == 95 {
        string_terminator_status(d)
    } else if d[1] == 79 {
        if d.len() >= 3 {
            SeqStatus::Complete
        } else {
            SeqStatus::Incomplete
        }
    } else {
        SeqStatus::Complete
    }
}

/// Length of a UTF-8 character as announced by its first byte.
pub open spec fn utf8_len(b: u8) -> int {
    if b < 0x80 {
        1
    } else if b < 0xe0 {
        2
    } else if b < 0xf0 {
        3
    } else {
        4
    }
}

/// The shortest prefix of `b`, of length `n` or more, that is no longer an
/// incomplete escape sequence.
pub open spec fn escape_end_from(b: Seq<u8>, n: int) -> Option<int>
    decreases b.len() + 1 - n,
{
    if n < 1 || n > b.len() {
        None
    } else if !(seq_status(b.take(n)) is Incomplete) {
        Some(n)
    } else {
        escape_end_from(b, n + 1)
    }
}

/// Length of the first input unit of a non-empty buffer: a whole escape
/// sequence, or one (possibly cut) UTF-8 character. `None` when the buffer
/// starts with an escape sequence that is not complete yet.
pub open spec fn first_unit(b: Seq<u8>) -> Option<int> {
    if b.len() == 0 {
        None
    } else if b[0] == 27 {
        escape_end_from(b, 1)
    } else if utf8_len(b[0]) <= b.len() {
        Some(utf8_len(b[0]))
    } else {
        Some(b.len() as int)
    }
}

pub proof fn lemma_escape_end_range(b: Seq<u8>, n: int)
    ensures
        escape_end_from(b, n) matches Some(m) ==> 1 <= n <= m <= b.len(),
    decreases b.len() + 1 - n,
{
    if n >= 1 && n <= b.len() && seq_status(b.take(n)) is Incomplete {
        lemma_escape_end_range(b, n + 1);
    }
}

pub proof fn lemma_first_unit_range(b: Seq<u8>)
    ensures
        first_unit(b) matches Some(n) ==> 1 <= n <= b.len(),
{
    if b.len() > 0 && b[0] == 27 {
        lemma_escape_end_range(b, 1);
    }
}

/// Split a buffer into complete input units, and the incomplete tail left
/// over (empty, or an unfinished escape sequence).
pub open spec fn split_units(b: Seq<u8>) -> (Seq<Seq<u8>>, Seq<u8>)
    decreases b.len(),
{
    if b.len() == 0 {
        (Seq::empty(), Seq::empty())
    } else {
        match first_unit(b) {
            None => (Seq::empty(), b),
            Some(n) => {
                proof {
                    lemma_first_unit_range(b);
                }
                let rest = split_units(b.skip(n));
                (seq![b.take(n)] + rest.0, rest.1)
            },
        }
    }
}

/// Concatenation of a sequence of byte strings.
pub open spec fn flatten(s: Seq<Seq<u8>>) -> Seq<u8>
    decreases s.len(),
{
    if s.len() == 0 {
        Seq::empty()
    } else {
        s[0] + flatten(s.drop_first())
    }
}

/// Splitting into units loses and duplicates no byte: the units, followed
/// by the leftover, give back the buffer; every unit is non-empty, and the
/// leftover is empty or starts with ESC.
pub proof fn lemma_split_units_partition(b: Seq<u8>)
    ensures
        flatten(split_units(b).0) + split_units(b).1 == b,
        forall|i: int| 0 <= i < split_units(b).0.len() ==> #[trigger] split_units(b).0[i].len() > 0,
        split_units(b).1.len() == 0 || split_units(b).1[0] == 27,
    decreases b.len(),
{
    if b.len() > 0 {
        lemma_first_unit_range(b);
        match first_unit(b) {
            None => {},
            Some(n) => {
                lemma_split_units_partition(b.skip(n));
                let rest = split_units(b.skip(n));
                let units = seq![b.take(n)] + rest.0;
                assert(units.drop_first() =~= rest.0);
                assert(flatten(units) == b.take(n) + flatten(rest.0));
                assert(b.take(n) + (flatten(rest.0) + rest.1) =~= b);
                assert(forall|i: int| 0 < i < units.len() ==> units[i] == rest.0[i - 1]);
            },
        }
    }
}

/// An input event in terms of the raw bytes it carries.
pub enum RawEvent {
    Data(Seq<u8>),
    Paste(Seq<u8>),
}

/// Events emitted by the stdin buffer.
#[derive(Debug, Clone, PartialEq, Eq)]
pub enum StdinEvent {
    /// A complete input sequence (single char or escape sequence).
    Data(String),
    /// Bracketed paste content (without the paste markers).
    Paste(String),
}

/// `e` is the decoded form of the raw event `r`.
pub open spec fn event_decodes(e: StdinEvent, r: RawEvent) -> bool {
    match (e, r) {
        (StdinEvent::Data(s), RawEvent::Data(b)) => s@ == utf8_lossy(b),
        (StdinEvent::Paste(s), RawEvent::Paste(b)) => s@ == utf8_lossy(b),
        _ => false,
    }
}

pub open spec fn events_decode(es: Seq<StdinEvent>, rs: Seq<RawEvent>) -> bool {
    es.len() == rs.len() && forall|i: int| 0 <= i < es.len() ==> event_decodes(#[trigger] es[i], rs[i])
}

pub open spec fn data_events(units: Seq<Seq<u8>>) -> Seq<RawEvent> {
    units.map_values(|u: Seq<u8>| RawEvent::Data(u))
}

/// `ESC [ 2 0 0 ~`
pub open spec fn paste_start() -> Seq<u8> {
    seq![27u8, 91u8, 50u8, 48u8, 48u8, 126u8]
}

/// `ESC [ 2 0 1 ~`
pub open spec fn paste_end() -> Seq<u8> {
    seq![27u8, 91u8, 50u8, 48u8, 49u8, 126u8]
}

/// Abstract state of a [`StdinBuffer`].
pub struct BufferState {
    pub buffer: Seq<u8>,
    pub paste_mode: bool,
    pub paste_buffer: Seq<u8>,
}

pub open spec fn idle_state() -> BufferState {
    BufferState { buffer: Seq::empty(), paste_mode: false, paste_buffer: Seq::empty() }
}

pub open spec fn state_size(st: BufferState) -> nat {
    st.buffer.len() + st.paste_buffer.len()
}

pub proof fn lemma_find_from_range(h: Seq<u8>, n: Seq<u8>, i: int)
    ensures
        find_from(h, n, i) matches Some(j) ==> i <= j && j + n.len() <= h.len(),
    decreases h.len() + 1 - i,
{
    if i >= 0 && i + n.len() <= h.len() && h.subrange(i, i + n.len()) != n {
        lemma_find_from_range(h, n, i + 1);
    }
}

/// What happens once a paste body `pb` is known: the paste ends at the
/// first end marker, and what follows is processed afresh.
pub open spec fn finish_paste(pb: Seq<u8>) -> (BufferState, Seq<RawEvent>)
    decreases pb.len(), 1nat,
{
    match find_from(pb, paste_end(), 0) {
        None => (BufferState { buffer: Seq::empty(), paste_mode: true, paste_buffer: pb }, Seq::empty()),
        Some(e) => {
            proof {
                lemma_find_from_range(pb, paste_end(), 0);
            }
            let content = pb.take(e);
            let rem = pb.skip(e + 6);
            if rem.len() == 0 {
                (idle_state(), seq![RawEvent::Paste(content)])
            } else {
                let r = process_spec(idle_state(), rem);
                (r.0, seq![RawEvent::Paste(content)] + r.1)
            }
        },
    }
}

/// The state and events after `data` arrives in state `st`.
pub open spec fn process_spec(st: BufferState, data: Seq<u8>) -> (BufferState, Seq<RawEvent>)
    decreases state_size(st) + data.len(), 2nat,
{
    if data.len() == 0 && st.buffer.len() == 0 {
        (st, seq![RawEvent::Data(Seq::empty())])
    } else {
        let buf = st.buffer + data;
        if st.paste_mode {
            finish_paste(st.paste_buffer + buf)
        } else {
            match find_from(buf, paste_start(), 0) {
                Some(s) => {
                    proof {
                        lemma_find_from_range(buf, paste_start(), 0);
                    }
                    let before = if s > 0 {
                        data_events(split_units(buf.take(s)).0)
                    } else {
                        Seq::empty()
                    };
                    let r = finish_paste(buf.skip(s + 6));
                    (r.0, before + r.1)
                },
                None => {
                    let (units, rem) = split_units(buf);
                    (
                        BufferState { buffer: rem, paste_mode: false, paste_buffer: st.paste_buffer },
                        data_events(units),
                    )
                },
            }
        }
    }
}

/// The `len` bytes of `h` from `j`.
pub open spec fn window(h: Seq<u8>, j: int, len: int) -> Seq<u8> {
    h.subrange(j, j + len)
}

proof fn lemma_find_from_first(h: Seq<u8>, n: Seq<u8>, i: int, k: int)
    requires
        0 <= i <= k,
        k + n.len() <= h.len(),
        h.subrange(k, k + n.len()) == n,
        forall|j: int| i <= j < k ==> #[trigger] window(h, j, n.len() as int) != n,
    ensures
        find_from(h, n, i) == Some(k),
    decreases k - i,
{
    if i < k {
        assert(window(h, i, n.len() as int) != n);
        lemma_find_from_first(h, n, i + 1, k);
    }
}

proof fn lemma_find_from_none(h: Seq<u8>, n: Seq<u8>, i: int, j: int)
    requires
        find_from(h, n, i) is None,
        0 <= i <= j,
        j + n.len() <= h.len(),
    ensures
        h.subrange(j, j + n.len()) != n,
    decreases j - i,
{
    if i < j {
        lemma_find_from_none(h, n, i + 1, j);
    }
}

#[verifier::rlimit(50)]
proof fn lemma_paste_body_ends(content: Seq<u8>)
    requires
        find_from(content, paste_end(), 0) is None,
    ensures
        finish_paste(content + paste_end()) == (idle_state(), seq![RawEvent::Paste(content)]),
{
    let pb = content + paste_end();
    let c = content.len() as int;
    assert(pb.subrange(c, c + 6) =~= paste_end());
    assert forall|j: int| 0 <= j < c implies #[trigger] window(pb, j, 6) != paste_end() by {
        if j + 6 <= c {
            lemma_find_from_none(content, paste_end(), 0, j);
            assert(pb.subrange(j, j + 6) =~= content.subrange(j, j + 6));
        } else {
            // The window reaches the end marker, whose escape byte would have
            // to stand at the window's start.
            assert(pb.subrange(j, j + 6)[c - j] == 27u8);
        }
    }
    lemma_find_from_first(pb, paste_end(), 0, c);
    assert(pb.take(c) =~= content);
    assert(pb.skip(c + 6) =~= Seq::<u8>::empty());
}

/// A bracketed paste that arrives whole gives exactly one paste event, its
/// content without the markers, and leaves the buffer idle.
pub proof fn law_whole_paste_is_one_event(content: Seq<u8>)
    requires
        find_from(content, paste_end(), 0) is None,
    ensures
        process_spec(idle_state(), paste_start() + content + paste_end()) == (
            idle_state(),
            seq![RawEvent::Paste(content)],
        ),
{
    let data = paste_start() + content + paste_end();
    assert(idle_state().buffer + data =~= data);
    assert(data.subrange(0, 6) =~= paste_start());
    lemma_find_from_first(data, paste_start(), 0, 0);
    assert(data.skip(6) =~= content + paste_end());
    lemma_paste_body_ends(content);
    assert(Seq::<RawEvent>::empty() + seq![RawEvent::Paste(content)] =~= seq![RawEvent::Paste(content)]);
}

/// A bracketed paste fed in three chunks (the start marker, the first
/// `cut` bytes of its content, the rest of the content with the end marker)
/// gives no event for the first two and exactly one paste event, with the
/// whole content, for the last; the buffer is then idle.
pub proof fn law_paste_in_chunks(content: Seq<u8>, cut: int)
    requires
        find_from(content, paste_end(), 0) is None,
        0 < cut <= content.len(),
    ensures
        ({
            let s1 = process_spec(idle_state(), paste_start());
            let s2 = process_spec(s1.0, content.take(cut));
            let s3 = process_spec(s2.0, content.skip(cut) + paste_end());
            &&& s1.1.len() == 0
            &&& s2.1.len() == 0
            &&& s3 == (idle_state(), seq![RawEvent::Paste(content)])
        }),
{
    let st0 = idle_state();
    assert(st0.buffer + paste_start() =~= paste_start());
    assert(paste_start().subrange(0, 6) =~= paste_start());
    lemma_find_from_first(paste_start(), paste_start(), 0, 0);
    let e0 = paste_start().skip(6);
    assert(e0 =~= Seq::<u8>::empty());
    assert(find_from(e0, paste_end(), 0) is None);
    let st1 = BufferState { buffer: Seq::empty(), paste_mode: true, paste_buffer: Seq::empty() };
    assert(process_spec(st0, paste_start()) == (st1, Seq::<RawEvent>::empty() + Seq::<RawEvent>::empty()));
    let a = content.take(cut);
    assert forall|j: int| 0 <= j && j + 6 <= a.len() implies #[trigger] window(a, j, 6) != paste_end() by {
        lemma_find_from_none(content, paste_end(), 0, j);
        assert(a.subrange(j, j + 6) =~= content.subrange(j, j + 6));
    }
    lemma_find_from_absent(a, paste_end(), 0);
    assert(st1.paste_buffer + (st1.buffer + a) =~= a);
    let st2 = BufferState { buffer: Seq::empty(), paste_mode: true, paste_buffer: a };
    assert(process_spec(st1, a) == (st2, Seq::<RawEvent>::empty()));
    let b = content.skip(cut) + paste_end();
    assert(st2.paste_buffer + (st2.buffer + b) =~= content + paste_end());
    lemma_paste_body_ends(content);
}

proof fn lemma_find_from_absent(h: Seq<u8>, n: Seq<u8>, i: int)
    requires
        0 <= i,
        forall|j: int| i <= j && j + n.len() <= h.len() ==> #[trigger] window(h, j, n.len() as int) != n,
    ensures
        find_from(h, n, i) is None,
    decreases h.len() + 1 - i,
{
    if i + n.len() <= h.len() {
        assert(window(h, i, n.len() as int) != n);
        lemma_find_from_absent(h, n, i + 1);
    }
}

/// No input unit of `b` is a character cut short by the end of `b`: every
/// unit that is not an escape sequence holds its whole UTF-8 character.
pub open spec fn whole_units(b: Seq<u8>) -> bool
    decreases b.len(),
{
    if b.len() == 0 {
        true
    } else {
        match first_unit(b) {
            None => true,
            Some(n) => {
                proof {
                    lemma_first_unit_range(b);
                }
                (b[0] == 27 || utf8_len(b[0]) <= b.len()) && whole_units(b.skip(n))
            },
        }
    }
}

proof fn lemma_escape_end_extend(x: Seq<u8>, y: Seq<u8>, k: int)
    requires
        1 <= k,
        escape_end_from(x, k) is Some,
    ensures
        escape_end_from(x + y, k) == escape_end_from(x, k),
    decreases x.len() + 1 - k,
{
    lemma_escape_end_range(x, k);
    assert((x + y).take(k) =~= x.take(k));
    if seq_status(x.take(k)) is Incomplete {
        lemma_escape_end_extend(x, y, k + 1);
    }
}

/// Splitting `x` and then what is left of it followed by `y` gives the
/// units of `x + y`, when no unit of `x` is a character cut by its end.
proof fn lemma_split_units_append(x: Seq<u8>, y: Seq<u8>)
    requires
        whole_units(x),
    ensures
        split_units(x + y) == (split_units(x).0 + split_units(split_units(x).1 + y).0, split_units(
            split_units(x).1 + y,
        ).1),
    decreases x.len(),
{
    if x.len() == 0 {
        assert(x + y =~= y);
        assert(split_units(x).1 + y =~= y);
        assert(Seq::<Seq<u8>>::empty() + split_units(y).0 =~= split_units(y).0);
    } else {
        lemma_first_unit_range(x);
        match first_unit(x) {
            None => {
                assert(Seq::<Seq<u8>>::empty() + split_units(x + y).0 =~= split_units(x + y).0);
            },
            Some(n) => {
                let xy = x + y;
                assert(xy[0] == x[0]);
                if x[0] == 27 {
                    lemma_escape_end_extend(x, y, 1);
                }
                assert(first_unit(xy) == Some(n));
                assert(xy.take(n) =~= x.take(n));
                assert(xy.skip(n) =~= x.skip(n) + y);
                lemma_split_units_append(x.skip(n), y);
                let r = split_units(x.skip(n));
                assert(seq![x.take(n)] + (r.0 + split_units(r.1 + y).0) =~= (seq![x.take(n)] + r.0) + split_units(
                    r.1 + y,
                ).0);
            },
        }
    }
}

proof fn lemma_no_start_in_part(s: Seq<u8>, a: int, b: int)
    requires
        find_from(s, paste_start(), 0) is None,
        0 <= a <= b <= s.len(),
    ensures
        find_from(s.subrange(a, b), paste_start(), 0) is None,
{
    let t = s.subrange(a, b);
    assert forall|j: int| 0 <= j && j + 6 <= t.len() implies #[trigger] window(t, j, 6) != paste_start() by {
        lemma_find_from_none(s, paste_start(), 0, a + j);
        assert(t.subrange(j, j + 6) =~= s.subrange(a + j, a + j + 6));
    }
    lemma_find_from_absent(t, paste_start(), 0);
}

/// Input split into two chunks gives the same events, and leaves the same
/// state, as the whole input at once: incomplete escape sequences are held
/// until they complete. This holds from an idle buffer, for non-empty
/// chunks, without a bracketed paste, and when the cut falls between whole
/// characters.
pub proof fn law_chunks_give_same_events(a: Seq<u8>, b: Seq<u8>)
    requires
        a.len() > 0,
        b.len() > 0,
        find_from(a + b, paste_start(), 0) is None,
        whole_units(a),
    ensures
        ({
            let s1 = process_spec(idle_state(), a);
            let s2 = process_spec(s1.0, b);
            let whole = process_spec(idle_state(), a + b);
            &&& s1.1 + s2.1 == whole.1
            &&& s2.0 == whole.0
        }),
{
    let ab = a + b;
    lemma_no_start_in_part(ab, 0, a.len() as int);
    assert(ab.subrange(0, a.len() as int) =~= a);
    assert(idle_state().buffer + a =~= a);
    assert(idle_state().buffer + ab =~= ab);
    let sa = split_units(a);
    lemma_split_units_partition(a);
    let rest = sa.1 + b;
    assert(rest =~= ab.subrange(a.len() - sa.1.len(), ab.len() as int)) by {
        assert(flatten(sa.0) + sa.1 == a);
    }
    lemma_no_start_in_part(ab, a.len() - sa.1.len(), ab.len() as int);
    let st1 = BufferState { buffer: sa.1, paste_mode: false, paste_buffer: Seq::empty() };
    assert(process_spec(idle_state(), a) == (st1, data_events(sa.0)));
    assert(st1.buffer + b =~= rest);
    lemma_split_units_append(a, b);
    assert(data_events(sa.0) + data_events(split_units(rest).0) =~= data_events(sa.0 + split_units(rest).0));
}

/// The UTF-8 encoding of a character: its first byte announces its length
/// (1 to 4 bytes), and none of its bytes is ESC unless the character is.
proof fn lemma_scalar_bytes(c: char)
    ensures
        1 <= encode_scalar(c as u32).len() <= 4,
        utf8_len(encode_scalar(c as u32)[0]) == encode_scalar(c as u32).len(),
        c != '\x1b' ==> forall|k: int|
            0 <= k < encode_scalar(c as u32).len() ==> #[trigger] encode_scalar(c as u32)[k] != 27u8,
{
    let v = c as u32;
    broadcast use vstd::utf8::char_is_scalar;

    assert(is_scalar(v));
    if has_width_1_encoding(v) {
        assert(leading_byte_width_1(v) == v) by (bit_vector)
            requires
                v <= 0x7f,
        ;
        if c != '\x1b' {
            assert(v != 27) by {
                if v == 27 {
                    vstd::utf8::char_u32_cast(c, v);
                }
            }
        }
    } else if has_width_2_encoding(v) {
        assert(0xc0 <= leading_byte_width_2(v) && leading_byte_width_2(v) < 0xe0) by (bit_vector)
            requires
                0x80 <= v <= 0x7ff,
        ;
        assert(last_continuation_byte(v) >= 0x80) by (bit_vector);
    } else if has_width_3_encoding(v) {
        assert(0xe0 <= leading_byte_width_3(v) && leading_byte_width_3(v) < 0xf0) by (bit_vector)
            requires
                0x800 <= v <= 0xffff,
        ;
        assert(second_last_continuation_byte(v) >= 0x80) by (bit_vector);
        assert(last_continuation_byte(v) >= 0x80) by (bit_vector);
    } else {
        assert(0xf0 <= leading_byte_width_4(v)) by (bit_vector)
            requires
                0x10000 <= v <= 0x10ffff,
        ;
        assert(third_last_continuation_byte(v) >= 0x80) by (bit_vector);
        assert(second_last_continuation_byte(v) >= 0x80) by (bit_vector);
        assert(last_continuation_byte(v) >= 0x80) by (bit_vector);
    }
}

/// The UTF-8 encoding of a one-character text.
proof fn lemma_encode_one(c: char)
    ensures
        encode_utf8(seq![c]) == encode_scalar(c as u32),
{
    assert(seq![c].drop_first() =~= Seq::<char>::empty());
    assert(encode_scalar(c as u32) + encode_utf8(Seq::<char>::empty()) =~= encode_scalar(c as u32));
}

/// Text without ESC splits into its characters' encodings, one unit per
/// character, with nothing left over; none of its bytes is ESC.
proof fn lemma_split_text(s: Seq<char>)
    requires
        forall|i: int| 0 <= i < s.len() ==> s[i] != '\x1b',
    ensures
        split_units(encode_utf8(s)) == (
            Seq::new(s.len(), |i: int| encode_scalar(s[i] as u32)),
            Seq::<u8>::empty(),
        ),
        forall|k: int| 0 <= k < encode_utf8(s).len() ==> #[trigger] encode_utf8(s)[k] != 27u8,
        s.len() > 0 ==> encode_utf8(s).len() > 0,
    decreases s.len(),
{
    let b = encode_utf8(s);
    if s.len() == 0 {
        assert(b =~= Seq::<u8>::empty());
        assert(Seq::new(s.len(), |i: int| encode_scalar(s[i] as u32)) =~= Seq::<Seq<u8>>::empty());
    } else {
        let t = s.drop_first();
        let e = encode_scalar(s[0] as u32);
        let rest = encode_utf8(t);
        lemma_scalar_bytes(s[0]);
        assert forall|i: int| 0 <= i < t.len() implies t[i] != '\x1b' by {
            assert(t[i] == s[i + 1]);
        }
        lemma_split_text(t);
        assert(b == e + rest);
        let n = e.len() as int;
        assert(b[0] == e[0]);
        assert(first_unit(b) == Some(n));
        assert(b.take(n) =~= e);
        assert(b.skip(n) =~= rest);
        let units = Seq::new(s.len(), |i: int| encode_scalar(s[i] as u32));
        let tail = Seq::new(t.len(), |i: int| encode_scalar(t[i] as u32));
        assert(seq![e] + tail =~= units);
        assert forall|k: int| 0 <= k < b.len() implies #[trigger] b[k] != 27u8 by {
            if k < n {
                assert(b[k] == e[k]);
            } else {
                assert(b[k] == rest[k - n]);
            }
        }
    }
}

/// Text typed in one piece, with no ESC in it, gives one data event per
/// character, holding exactly that character's UTF-8 bytes, in order, and
/// leaves the buffer idle: no character is cut or merged with another.
pub proof fn law_text_one_event_per_char(s: Seq<char>)
    requires
        s.len() > 0,
        forall|i: int| 0 <= i < s.len() ==> s[i] != '\x1b',
    ensures
        process_spec(idle_state(), encode_utf8(s)) == (
            idle_state(),
            Seq::new(s.len(), |i: int| RawEvent::Data(encode_utf8(seq![s[i]]))),
        ),
{
    let b = encode_utf8(s);
    lemma_split_text(s);
    assert(idle_state().buffer + b =~= b);
    assert forall|j: int| 0 <= j && j + 6 <= b.len() implies #[trigger] window(b, j, 6) != paste_start() by {
        assert(window(b, j, 6)[0] == b[j]);
    }
    lemma_find_from_absent(b, paste_start(), 0);
    let units = Seq::new(s.len(), |i: int| encode_scalar(s[i] as u32));
    let expected = Seq::new(s.len(), |i: int| RawEvent::Data(encode_utf8(seq![s[i]])));
    assert forall|i: int| 0 <= i < s.len() implies #[trigger] data_events(units)[i] == expected[i] by {
        lemma_encode_one(s[i]);
    }
    assert(data_events(units) =~= expected);
}

/// Check whether `data` is a complete escape sequence or needs more data.
fn is_complete_sequence(data: &[u8]) -> (r: SeqStatus)
    ensures
        r == seq_status(data@),
{
    let n = data.len();
    if n == 0 || data[0] != 0x1b {
        return SeqStatus::NotEscape;
    }
    if n == 1 {
        return SeqStatus::Incomplete;
    }
    let c = data[1];
    if c == 91 {
        if n >= 3 && data[2] == 77 {
            return if n >= 6 {
                SeqStatus::Complete
            } else {
                SeqStatus::Incomplete
            };
        }
        is_complete_csi(data)
    } else if c == 93 {
        is_complete_osc(data)
    } else if c == 80 || c == 95 {
        is_complete_string_terminator(data)
    } else if c == 79 {
        if n >= 3 {
            SeqStatus::Complete
        } else {
            SeqStatus::Incomplete
        }
    } else {
        SeqStatus::Complete
    }
}

fn is_complete_csi(data: &[u8]) -> (r: SeqStatus)
    ensures
        r == csi_status(data@),
{
    let n = data.len();
    if n < 3 {
        return SeqStatus::Incomplete;
    }
    let last = data[n - 1];
    if 0x40 <= last && last <= 0x7e {
        if data[2] == 60 {
            let payload = &data[2..n];
            if is_sgr_mouse_complete(payload) {
                return SeqStatus::Complete;
            }
            return SeqStatus::Incomplete;
        }
        return SeqStatus::Complete;
    }
    SeqStatus::Incomplete
}

/// Check whether an SGR mouse payload `<B;X;Y[Mm]` is complete.
fn is_sgr_mouse_complete(payload: &[u8]) -> (r: bool)
    ensures
        r == sgr_mouse_complete(payload@),
{
    let n = payload.len();
    if n < 2 {
        return false;
    }
    let last = payload[n - 1];
    if last != 77 && last != 109 {
        return false;
    }
    let ghost inner = payload@.subrange(1, n - 1);
    let mut parts: usize = 0;
    let mut has_digit = false;
    let mut i: usize = 1;
    while i < n - 1
        invariant
            2 <= n == payload@.len(),
            inner == payload@.subrange(1, n - 1),
            1 <= i <= n - 1,
            parts == count_semicolons(inner.take(i - 1)),
            parts <= i,
            has_digit <==> (i > 1 && inner[i - 2] != 59),
            forall|k: int| 0 <= k < i - 1 ==> is_digit(#[trigger] inner[k]) || inner[k] == 59,
            i > 1 ==> inner[0] != 59,
            forall|k: int| 0 < k < i - 1 && #[trigger] inner[k] == 59 ==> inner[k - 1] != 59,
        decreases n - 1 - i,
    {
        let b = payload[i];
        assert(inner.take(i as int).drop_last() =~= inner.take(i - 1));
        assert(b == inner[i - 1]);
        if b == 59 {
            if !has_digit {
                return false;
            }
            parts = parts + 1;
            has_digit = false;
        } else if 48 <= b && b <= 57 {
            has_digit = true;
        } else {
            return false;
        }
        i = i + 1;
    }
    assert(inner.take(i - 1) =~= inner);
    if has_digit {
        parts = parts + 1;
    }
    parts == 3
}

/// OSC sequences end with ST (ESC \) or BEL.
fn is_complete_osc(data: &[u8]) -> (r: SeqStatus)
    ensures
        r == osc_status(data@),
{
    let n = data.len();
    if n >= 2 && (data[n - 1] == 0x07 || (n >= 3 && data[n - 2] == 0x1b && data[n - 1] == 92)) {
        SeqStatus::Complete
    } else {
        SeqStatus::Incomplete
    }
}

/// DCS/APC sequences end with ST (ESC \).
fn is_complete_string_terminator(data: &[u8]) -> (r: SeqStatus)
    ensures
        r == string_terminator_status(data@),
{
    let n = data.len();
    if n >= 4 && data[n - 2] == 0x1b && data[n - 1] == 92 {
        SeqStatus::Complete
    } else {
        SeqStatus::Incomplete
    }
}

/// Length of a UTF-8 character from its first byte.
fn utf8_char_len(b: u8) -> (n: usize)
    ensures
        n == utf8_len(b),
{
    if b < 0x80 {
        1
    } else if b < 0xe0 {
        2
    } else if b < 0xf0 {
        3
    } else {
        4
    }
}

pub open spec fn views(v: Seq<Vec<u8>>) -> Seq<Seq<u8>> {
    v.map_values(|x: Vec<u8>| x@)
}

/// Extract complete sequences from a buffer, returning the sequences and
/// the leftover.
fn extract_complete_sequences(buffer: &[u8]) -> (r: (Vec<Vec<u8>>, Vec<u8>))
    ensures
        (views(r.0@), r.1@) == split_units(buffer@),
{
    let mut sequences: Vec<Vec<u8>> = Vec::new();
    let mut pos: usize = 0;
    let n = buffer.len();
    assert(buffer@.skip(0) =~= buffer@);
    while pos < n
        invariant
            n == buffer@.len(),
            pos <= n,
            split_units(buffer@) == (views(sequences@) + split_units(buffer@.skip(pos as int)).0,
            split_units(buffer@.skip(pos as int)).1),
        decreases n - pos,
    {
        let ghost rest = buffer@.skip(pos as int);
        proof {
            lemma_first_unit_range(rest);
        }
        if buffer[pos] == 0x1b {
            let mut seq_end: usize = 1;
            let mut found = false;
            loop
                invariant_except_break
                    !found,
                invariant
                    n == buffer@.len(),
                    pos < n,
                    rest == buffer@.skip(pos as int),
                    1 <= seq_end <= n - pos,
                    rest[0] == 27,
                    escape_end_from(rest, 1) == escape_end_from(rest, seq_end as int),
                ensures
                    1 <= seq_end <= n - pos,
                    found ==> escape_end_from(rest, 1) == Some(seq_end as int),
                    !found ==> escape_end_from(rest, 1) is None,
                decreases n - pos - seq_end,
            {
                let candidate = &buffer[pos..pos + seq_end];
                assert(candidate@ =~= rest.take(seq_end as int));
                match is_complete_sequence(candidate) {
                    SeqStatus::Incomplete => {
                        if seq_end == n - pos {
                            assert(escape_end_from(rest, seq_end + 1) is None);
                            break;
                        }
                        seq_end = seq_end + 1;
                    },
                    _ => {
                        found = true;
                        break;
                    },
                }
            }
            if !found {
                let left = copy_range(buffer, pos, n);
                assert(left@ =~= rest);
                assert(views(sequences@) + Seq::<Seq<u8>>::empty() =~= views(sequences@));
                return (sequences, left);
            }
            let unit = copy_range(buffer, pos, pos + seq_end);
            let ghost old_seqs = sequences@;
            sequences.push(unit);
            proof {
                assert(first_unit(rest) == Some(seq_end as int));
                assert(unit@ =~= rest.take(seq_end as int));
                assert(rest.skip(seq_end as int) =~= buffer@.skip(pos + seq_end));
                assert(views(sequences@) =~= views(old_seqs).push(unit@));
                assert(views(old_seqs) + (seq![rest.take(seq_end as int)] + split_units(
                    rest.skip(seq_end as int),
                ).0) =~= views(sequences@) + split_units(rest.skip(seq_end as int)).0);
            }
            pos = pos + seq_end;
        } else {
            let ch_len = utf8_char_len(buffer[pos]);
            let end = if ch_len <= n - pos {
                pos + ch_len
            } else {
                n
            };
            let unit = copy_range(buffer, pos, end);
            let ghost old_seqs = sequences@;
            sequences.push(unit);
            proof {
                let k = (end - pos) as int;
                assert(first_unit(rest) == Some(k));
                assert(unit@ =~= rest.take(k));
                assert(rest.skip(k) =~= buffer@.skip(end as int));
                assert(views(sequences@) =~= views(old_seqs).push(unit@));
                assert(views(old_seqs) + (seq![rest.take(k)] + split_units(rest.skip(k)).0)
                    =~= views(sequences@) + split_units(rest.skip(k)).0);
            }
            pos = end;
        }
    }
    proof {
        assert(buffer@.skip(pos as int).len() == 0);
        assert(views(sequences@) + Seq::<Seq<u8>>::empty() =~= views(sequences@));
    }
    (sequences, Vec::new())
}

fn paste_start_bytes() -> (r: Vec<u8>)
    ensures
        r@ == paste_start(),
{
    let r = vec![0x1bu8, 91, 50, 48, 48, 126];
    assert(r@ =~= paste_start());
    r
}

fn paste_end_bytes() -> (r: Vec<u8>)
    ensures
        r@ == paste_end(),
{
    let r = vec![0x1bu8, 91, 50, 48, 49, 126];
    assert(r@ =~= paste_end());
    r
}

/// One `Data` event per unit.
fn data_events_of(units: &Vec<Vec<u8>>) -> (events: Vec<StdinEvent>)
    ensures
        events_decode(events@, data_events(views(units@))),
{
    let mut events: Vec<StdinEvent> = Vec::new();
    let mut i: usize = 0;
    while i < units.len()
        invariant
            i <= units@.len(),
            events@.len() == i,
            forall|j: int|
                0 <= j < i ==> event_decodes(#[trigger] events@[j], RawEvent::Data(units@[j]@)),
        decreases units@.len() - i,
    {
        let s = lossy_string(units[i].as_slice());
        events.push(StdinEvent::Data(s));
        i = i + 1;
    }
    events
}

pub proof fn lemma_events_concat(
    es1: Seq<StdinEvent>,
    rs1: Seq<RawEvent>,
    es2: Seq<StdinEvent>,
    rs2: Seq<RawEvent>,
)
    requires
        events_decode(es1, rs1),
        events_decode(es2, rs2),
    ensures
        events_decode(es1 + es2, rs1 + rs2),
{
    assert forall|i: int| 0 <= i < (es1 + es2).len() implies event_decodes(
        #[trigger] (es1 + es2)[i],
        (rs1 + rs2)[i],
    ) by {
        if i < es1.len() {
            assert(event_decodes(es1[i], rs1[i]));
        } else {
            assert(event_decodes(es2[i - es1.len()], rs2[i - es1.len()]));
        }
    }
}

/// Buffers stdin input and produces complete sequences, holding partial
/// escape sequences that arrive across several chunks.
pub struct StdinBuffer {
    buffer: Vec<u8>,
    paste_mode: bool,
    paste_buffer: Vec<u8>,
}

impl View for StdinBuffer {
    type V = BufferState;

    closed spec fn view(&self) -> BufferState {
        BufferState {
            buffer: self.buffer@,
            paste_mode: self.paste_mode,
            paste_buffer: self.paste_buffer@,
        }
    }
}

impl StdinBuffer {
    pub fn new() -> (r: Self)
        ensures
            r@ == idle_state(),
    {
        let r = StdinBuffer { buffer: Vec::new(), paste_mode: false, paste_buffer: Vec::new() };
        assert(r@.buffer =~= Seq::<u8>::empty());
        assert(r@.paste_buffer =~= Seq::<u8>::empty());
        r
    }

    /// With the paste body held in `paste_buffer`: end the paste at the first
    /// end marker and process what follows it.
    fn end_paste(&mut self) -> (events: Vec<StdinEvent>)
        requires
            old(self)@.buffer.len() == 0,
            old(self)@.paste_mode,
        ensures
            final(self)@ == finish_paste(old(self)@.paste_buffer).0,
            events_decode(events@, finish_paste(old(self)@.paste_buffer).1),
        decreases old(self)@.paste_buffer.len(), 1nat,
    {
        let ghost pb = self.paste_buffer@;
        let end = paste_end_bytes();
        match find_subsequence(self.paste_buffer.as_slice(), end.as_slice()) {
            None => {
                assert(self@.buffer =~= Seq::<u8>::empty());
                let events: Vec<StdinEvent> = Vec::new();
                assert(events_decode(events@, Seq::<RawEvent>::empty()));
                events
            },
            Some(e) => {
                proof {
                    lemma_find_from_range(pb, paste_end(), 0);
                }
                let n = self.paste_buffer.len();
                let content = copy_range(self.paste_buffer.as_slice(), 0, e);
                let rem = copy_range(self.paste_buffer.as_slice(), e + 6, n);
                self.paste_mode = false;
                self.paste_buffer = Vec::new();
                let mut events: Vec<StdinEvent> = Vec::new();
                events.push(StdinEvent::Paste(lossy_string(content.as_slice())));
                assert(events_decode(events@, seq![RawEvent::Paste(pb.take(e as int))]));
                assert(self@ == idle_state()) by {
                    assert(self@.buffer =~= Seq::<u8>::empty());
                    assert(self@.paste_buffer =~= Seq::<u8>::empty());
                }
                if rem.len() > 0 {
                    let ghost evs = events@;
                    let mut more = self.process(rem.as_slice());
                    let ghost more_v = more@;
                    events.append(&mut more);
                    proof {
                        lemma_events_concat(
                            evs,
                            seq![RawEvent::Paste(pb.take(e as int))],
                            more_v,
                            process_spec(idle_state(), rem@).1,
                        );
                        assert(events@ =~= evs + more_v);
                    }
                } else {
                    assert(rem@ =~= pb.skip(e + 6));
                }
                events
            },
        }
    }

    /// Process incoming data and return the complete events it yields.
    pub fn process(&mut self, data: &[u8]) -> (events: Vec<StdinEvent>)
        ensures
            final(self)@ == process_spec(old(self)@, data@).0,
            events_decode(events@, process_spec(old(self)@, data@).1),
        decreases state_size(old(self)@) + data@.len(), 2nat,
    {
        if data.len() == 0 && self.buffer.len() == 0 {
            let empty: Vec<u8> = Vec::new();
            let mut events: Vec<StdinEvent> = Vec::new();
            events.push(StdinEvent::Data(lossy_string(empty.as_slice())));
            assert(empty@ =~= Seq::<u8>::empty());
            return events;
        }
        let ghost st = self@;
        self.buffer.extend_from_slice(data);
        let ghost buf = self.buffer@;
        assert(buf =~= st.buffer + data@);
        if self.paste_mode {
            self.paste_buffer.append(&mut self.buffer);
            assert(self.paste_buffer@ =~= st.paste_buffer + buf);
            return self.end_paste();
        }
        let start = paste_start_bytes();
        match find_subsequence(self.buffer.as_slice(), start.as_slice()) {
            Some(s) => {
                proof {
                    lemma_find_from_range(buf, paste_start(), 0);
                }
                let n = self.buffer.len();
                let mut events: Vec<StdinEvent> = Vec::new();
                let ghost before_r: Seq<RawEvent> = if s > 0 {
                    data_events(split_units(buf.take(s as int)).0)
                } else {
                    Seq::empty()
                };
                if s > 0 {
                    let before = copy_range(self.buffer.as_slice(), 0, s);
                    let (seqs, _rest) = extract_complete_sequences(before.as_slice());
                    assert(before@ =~= buf.take(s as int));
                    events = data_events_of(&seqs);
                } else {
                    assert(events@.len() == 0);
                }
                let after = copy_range(self.buffer.as_slice(), s + 6, n);
                assert(after@ =~= buf.skip(s + 6));
                self.buffer = Vec::new();
                self.paste_mode = true;
                self.paste_buffer = after;
                assert(self@.buffer =~= Seq::<u8>::empty());
                let ghost evs = events@;
                let mut more = self.end_paste();
                let ghost more_v = more@;
                events.append(&mut more);
                proof {
                    lemma_events_concat(evs, before_r, more_v, finish_paste(buf.skip(s + 6)).1);
                    assert(events@ =~= evs + more_v);
                }
                events
            },
            None => {
                let (seqs, rem) = extract_complete_sequences(self.buffer.as_slice());
                self.buffer = rem;
                data_events_of(&seqs)
            },
        }
    }

    /// Flush any remaining buffered data as-is.
    pub fn flush(&mut self) -> (r: Vec<String>)
        ensures
            old(self)@.buffer.len() == 0 ==> r@.len() == 0,
            old(self)@.buffer.len() > 0 ==> r@.len() == 1 && r@[0]@ == utf8_lossy(old(self)@.buffer),
            old(self)@.buffer.len() > 0 && valid_utf8(old(self)@.buffer) ==> r@[0]@ == decode_utf8(
                old(self)@.buffer,
            ),
            final(self)@ == (BufferState {
                buffer: Seq::empty(),
                paste_mode: old(self)@.paste_mode,
                paste_buffer: old(self)@.paste_buffer,
            }),
    {
        if self.buffer.len() == 0 {
            assert(self@.buffer =~= Seq::<u8>::empty());
            return Vec::new();
        }
        let s = lossy_string(self.buffer.as_slice());
        self.buffer = Vec::new();
        let mut r: Vec<String> = Vec::new();
        r.push(s);
        assert(self@.buffer =~= Seq::<u8>::empty());
        r
    }

    /// Clear all buffered content without emitting.
    pub fn clear(&mut self)
        ensures
            final(self)@ == idle_state(),
    {
        self.buffer = Vec::new();
        self.paste_mode = false;
        self.paste_buffer = Vec::new();
        assert(self@.buffer =~= Seq::<u8>::empty());
        assert(self@.paste_buffer =~= Seq::<u8>::empty());
    }

    /// Current buffer contents.
    pub fn get_buffer(&self) -> (r: &[u8])
        ensures
            r@ == self@.buffer,
    {
        self.buffer.as_slice()
    }

    /// Whether incomplete data is pending, which a timeout would flush.
    pub fn has_pending(&self) -> (b: bool)
        ensures
            b <==> self@.buffer.len() > 0,
    {
        self.buffer.len() > 0
    }
}

} // verus!
