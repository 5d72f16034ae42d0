//! Rendering for waybar's `custom/hyprdesk` module.
//!
//! The daemon streams one JSON object per line to `hyprdesk waybar`
//! subscribers; waybar consumes it as a continuous custom module
//! (`return-type: json`). The strip mirrors Omarchy's stock workspace
//! look, lifted to desk level: desks 1..=[`PERSISTENT_COUNT`] always show,
//! higher desks appear only while occupied, the active desk is the stock
//! dot glyph, and empty desks are dimmed with pango alpha. "Occupied"
//! means at least one window on any of the desk's workspaces, across all
//! monitors.

use crate::daemon::{desk_numbers, desk_values};
use crate::model::{DeskId, DESK_COUNT};
use crate::text::{
    decimal, digit_char, join, lemma_join_push, lemma_single_line_concat, push_decimal, single_line,
};
use vstd::prelude::*;
use vstd::string::*;

verus! {

/// Desks shown even when empty, mirroring Omarchy's stock
/// `persistent-workspaces` 1..=5.
pub const PERSISTENT_COUNT: u8 = 5;

/// The glyph Omarchy's stock bar uses for the active workspace.
pub const ACTIVE_ICON: &'static str = "\u{f14fb}";

/// The characters of [`ACTIVE_ICON`].
pub open spec fn active_icon() -> Seq<char> {
    seq!['\u{f14fb}']
}

/// Single-glyph desk label, matching the stock bar (desk 10 renders "0").
pub open spec fn desk_label(v: nat) -> Seq<char> {
    if v == DESK_COUNT {
        seq!['0']
    } else {
        decimal(v)
    }
}

/// How desk `v` appears in the strip, if at all.
pub open spec fn strip_item(v: nat, current: nat, occupied: Seq<nat>) -> Option<Seq<char>> {
    if v == current {
        Some(active_icon())
    } else if occupied.contains(v) {
        Some(desk_label(v))
    } else if v <= PERSISTENT_COUNT {
        Some("<span alpha='50%'>"@ + desk_label(v) + "</span>"@)
    } else {
        None
    }
}

/// The strip's items, in desk order.
pub open spec fn strip_items(current: nat, occupied: Seq<nat>) -> Seq<Seq<char>> {
    desk_numbers().filter_map(|v: nat| strip_item(v, current, occupied))
}

/// The strip's text: its items separated by single spaces.
pub open spec fn strip(current: nat, occupied: Seq<nat>) -> Seq<char> {
    join(strip_items(current, occupied), " "@)
}

/// The tooltip naming the current desk.
pub open spec fn tooltip(current: nat) -> Seq<char> {
    "Desk "@ + decimal(current)
}

/// Lowercase hexadecimal digit for `d` (`0 <= d < 16`).
pub open spec fn hex_digit(d: int) -> char {
    if d < 10 {
        digit_char(d)
    } else if d == 10 {
        'a'
    } else if d == 11 {
        'b'
    } else if d == 12 {
        'c'
    } else if d == 13 {
        'd'
    } else if d == 14 {
        'e'
    } else {
        'f'
    }
}

/// How serde_json writes one character inside a JSON string: `"` and `\`
/// behind a backslash; backspace, tab, line feed, form feed and carriage
/// return as `\b \t \n \f \r`; the other characters below U+0020 as `\u00`
/// and two lowercase hex digits; every other character as itself.
pub open spec fn json_escape_char(c: char) -> Seq<char> {
    if c == '"' {
        seq!['\\', '"']
    } else if c == '\\' {
        seq!['\\', '\\']
    } else if c == '\u{8}' {
        seq!['\\', 'b']
    } else if c == '\t' {
        seq!['\\', 't']
    } else if c == '\n' {
        seq!['\\', 'n']
    } else if c == '\u{c}' {
        seq!['\\', 'f']
    } else if c == '\r' {
        seq!['\\', 'r']
    } else if (c as u32) < 0x20 {
        seq!['\\', 'u', '0', '0', hex_digit((c as int) / 16), hex_digit((c as int) % 16)]
    } else {
        seq![c]
    }
}

/// The characters of `s`, each written as serde_json writes it inside a
/// JSON string.
pub open spec fn json_escaped(s: Seq<char>) -> Seq<char>
    decreases s.len(),
{
    if s.len() == 0 {
        seq![]
    } else {
        json_escaped(s.drop_last()) + json_escape_char(s.last())
    }
}

/// The JSON text serde_json renders for a string value: the escaped
/// characters between double quotes.
pub open spec fn json_string(s: Seq<char>) -> Seq<char> {
    seq!['"'] + json_escaped(s) + seq!['"']
}

/// A character serde_json writes inside a JSON string as itself.
pub open spec fn json_plain(c: char) -> bool {
    c != '"' && c != '\\' && (c as u32) >= 0x20
}

/// Text whose every character serde_json writes as itself.
pub open spec fn json_plain_text(s: Seq<char>) -> bool {
    forall|i: int| 0 <= i < s.len() ==> #[trigger] json_plain(s[i])
}

/// The payload line: a JSON object with the `text` and `tooltip` members,
/// in that order, given their JSON renderings.
pub open spec fn payload(text_json: Seq<char>, tooltip_json: Seq<char>) -> Seq<char> {
    "{\"text\":"@ + text_json + ",\"tooltip\":"@ + tooltip_json + "}"@
}

/// The waybar line for a state.
pub open spec fn waybar_line(current: nat, occupied: Seq<nat>) -> Seq<char> {
    payload(json_string(strip(current, occupied)), json_string(tooltip(current)))
}

/// Renders a string value as JSON text with `serde_json::to_string`, which
/// writes a `str` between double quotes and escapes it character by
/// character with its default formatter, as `json_string` states.
/// Serializing a `str` into serde_json's in-memory writer cannot fail, so
/// the error arm is never taken.
#[verifier::external_body]
fn json_string_text(s: &str) -> (r: String)
    ensures
        r@ == json_string(s@),
{
    serde_json::to_string(s).unwrap_or_default()
}

/// Whether `v` is among the desks.
fn contains_desk(desks: &[DeskId], v: u8) -> (r: bool)
    ensures
        r == desk_values(desks@).contains(v as nat),
{
    let ghost dv = desk_values(desks@);
    let mut i: usize = 0;
    while i < desks.len()
        invariant
            i <= desks@.len(),
            dv == desk_values(desks@),
            forall|j: int| 0 <= j < i ==> dv[j] != v,
        decreases desks@.len() - i,
    {
        assert(dv[i as int] == desks@[i as int].value());
        if desks[i].id() == v {
            return true;
        }
        i = i + 1;
    }
    false
}

/// Appends the label of desk `v`.
fn push_label(s: &mut String, v: u8)
    requires
        1 <= v <= DESK_COUNT,
    ensures
        final(s)@ == old(s)@ + desk_label(v as nat),
{
    if v == DESK_COUNT {
        s.push('0');
        assert(final(s)@ =~= old(s)@ + desk_label(v as nat));
    } else {
        push_decimal(s, v as u64);
    }
}

/// The strip text for the given state.
pub fn strip_text(current: DeskId, occupied: &[DeskId]) -> (r: String)
    ensures
        r@ == strip(current.value(), desk_values(occupied@)),
{
    let ghost occ = desk_values(occupied@);
    let ghost cur = current.value();
    let ghost f = |v: nat| strip_item(v, cur, occ);
    let c = current.id();
    let mut s = String::new();
    let mut any = false;
    let mut v: u8 = 1;
    assert(desk_numbers().take(0).filter_map(f) =~= Seq::<Seq<char>>::empty());
    while v <= DESK_COUNT
        invariant
            1 <= v <= DESK_COUNT + 1,
            c == cur,
            occ == desk_values(occupied@),
            f == (|v: nat| strip_item(v, cur, occ)),
            any == (desk_numbers().take(v - 1).filter_map(f).len() > 0),
            s@ == join(desk_numbers().take(v - 1).filter_map(f), " "@),
        decreases DESK_COUNT + 1 - v,
    {
        let ghost items = desk_numbers().take(v - 1).filter_map(f);
        proof {
            desk_numbers().lemma_filter_map_take_succ(f, v - 1);
            assert(desk_numbers()[v - 1] == v);
        }
        let shown = v == c || contains_desk(occupied, v) || v <= PERSISTENT_COUNT;
        if shown {
            let ghost before = s@;
            if any {
                s.append(" ");
            }
            let ghost sep = s@;
            if v == c {
                s.push('\u{f14fb}');
            } else if contains_desk(occupied, v) {
                push_label(&mut s, v);
            } else {
                s.append("<span alpha='50%'>");
                push_label(&mut s, v);
                s.append("</span>");
            }
            proof {
                let item = strip_item(v as nat, cur, occ)->0;
                assert(s@ =~= sep + item);
                lemma_join_push(items, " "@, item);
                if !any {
                    assert(sep =~= Seq::<char>::empty());
                }
                assert(desk_numbers().take(v as int).filter_map(f) =~= items.push(item));
            }
            any = true;
        } else {
            assert(desk_numbers().take(v as int).filter_map(f) =~= items);
        }
        v = v + 1;
    }
    assert(desk_numbers().take(DESK_COUNT as int) =~= desk_numbers());
    s
}

/// The tooltip for the given desk.
pub fn tooltip_text(current: DeskId) -> (r: String)
    ensures
        r@ == tooltip(current.value()),
{
    let mut s = String::from_str("Desk ");
    s.append(current.to_string().as_str());
    s
}

/// The payload line from the JSON renderings of its two members.
pub fn frame_payload(text_json: &str, tooltip_json: &str) -> (r: String)
    ensures
        r@ == payload(text_json@, tooltip_json@),
{
    let mut s = String::from_str("{\"text\":");
    s.append(text_json);
    s.append(",\"tooltip\":");
    s.append(tooltip_json);
    s.append("}");
    s
}

/// One waybar line for the given state. Pure; the daemon supplies live
/// occupancy.
pub fn status_line(current: DeskId, occupied: &[DeskId]) -> (r: String)
    ensures
        r@ == waybar_line(current.value(), desk_values(occupied@)),
{
    let text = strip_text(current, occupied);
    let tip = tooltip_text(current);
    let text_json = json_string_text(text.as_str());
    let tip_json = json_string_text(tip.as_str());
    frame_payload(text_json.as_str(), tip_json.as_str())
}

// ---------------------------------------------------------------------
// Laws
// ---------------------------------------------------------------------

proof fn lemma_json_escape_char_one_line(c: char)
    ensures
        single_line(json_escape_char(c)),
{
    let e = json_escape_char(c);
    if (c as u32) < 0x20 && c != '\u{8}' && c != '\t' && c != '\n' && c != '\u{c}' && c != '\r' {
        assert(e[4] != '\n' && e[5] != '\n');
    }
}

/// A string value rendered as JSON is one line: serde_json escapes every
/// line break (and every other control character) inside it.
pub proof fn law_json_string_is_one_line(s: Seq<char>)
    ensures
        single_line(json_string(s)),
{
    lemma_json_escaped_one_line(s);
    lemma_single_line_concat(seq!['"'], json_escaped(s));
    lemma_single_line_concat(seq!['"'] + json_escaped(s), seq!['"']);
}

proof fn lemma_json_escaped_one_line(s: Seq<char>)
    ensures
        single_line(json_escaped(s)),
    decreases s.len(),
{
    if s.len() > 0 {
        lemma_json_escaped_one_line(s.drop_last());
        lemma_json_escape_char_one_line(s.last());
        lemma_single_line_concat(json_escaped(s.drop_last()), json_escape_char(s.last()));
    }
}

/// Text with no quote, no backslash and no control character is rendered
/// as itself between double quotes.
pub proof fn law_json_string_of_plain_text(s: Seq<char>)
    requires
        json_plain_text(s),
    ensures
        json_escaped(s) == s,
        json_string(s) == seq!['"'] + s + seq!['"'],
    decreases s.len(),
{
    if s.len() > 0 {
        let t = s.drop_last();
        assert(json_plain_text(t)) by {
            assert forall|i: int| 0 <= i < t.len() implies #[trigger] json_plain(t[i]) by {
                assert(t[i] == s[i]);
            }
        }
        law_json_string_of_plain_text(t);
        assert(json_plain(s[s.len() - 1]));
        assert(t.push(s.last()) =~= s);
    }
}

proof fn lemma_plain_concat(a: Seq<char>, b: Seq<char>)
    requires
        json_plain_text(a),
        json_plain_text(b),
    ensures
        json_plain_text(a + b),
{
    assert forall|i: int| 0 <= i < (a + b).len() implies #[trigger] json_plain((a + b)[i]) by {
        if i < a.len() {
            assert((a + b)[i] == a[i]);
        } else {
            assert((a + b)[i] == b[i - a.len()]);
        }
    }
}

proof fn lemma_decimal_plain(n: nat)
    ensures
        json_plain_text(decimal(n)),
    decreases n,
{
    if n >= 10 {
        lemma_decimal_plain(n / 10);
        let d = digit_char((n % 10) as int);
        assert(json_plain_text(seq![d]));
        lemma_plain_concat(decimal(n / 10), seq![d]);
        assert(decimal(n / 10).push(d) =~= decimal(n / 10) + seq![d]);
    }
}

proof fn lemma_join_plain(parts: Seq<Seq<char>>, sep: Seq<char>)
    requires
        json_plain_text(sep),
        forall|i: int| 0 <= i < parts.len() ==> #[trigger] json_plain_text(parts[i]),
    ensures
        json_plain_text(join(parts, sep)),
    decreases parts.len(),
{
    if parts.len() > 1 {
        let t = parts.drop_last();
        assert forall|i: int| 0 <= i < t.len() implies #[trigger] json_plain_text(t[i]) by {
            assert(t[i] == parts[i]);
        }
        lemma_join_plain(t, sep);
        assert(json_plain_text(parts[parts.len() - 1]));
        lemma_plain_concat(join(t, sep), sep);
        lemma_plain_concat(join(t, sep) + sep, parts.last());
    } else if parts.len() == 1 {
        assert(json_plain_text(parts[0]));
    }
}

proof fn lemma_strip_plain(current: nat, occupied: Seq<nat>)
    ensures
        json_plain_text(strip(current, occupied)),
{
    let f = |v: nat| strip_item(v, current, occupied);
    let items = strip_items(current, occupied);
    reveal_strlit("<span alpha='50%'>");
    reveal_strlit("</span>");
    reveal_strlit(" ");
    let open_tag = "<span alpha='50%'>"@;
    let close_tag = "</span>"@;
    assert(json_plain_text(open_tag)) by {
        assert forall|i: int| 0 <= i < open_tag.len() implies #[trigger] json_plain(open_tag[i]) by {
            assert(open_tag =~= seq!['<', 's', 'p', 'a', 'n', ' ', 'a', 'l', 'p', 'h', 'a', '=', '\'', '5', '0', '%', '\'', '>']);
        }
    }
    assert(json_plain_text(close_tag)) by {
        assert forall|i: int| 0 <= i < close_tag.len() implies #[trigger] json_plain(close_tag[i]) by {
            assert(close_tag =~= seq!['<', '/', 's', 'p', 'a', 'n', '>']);
        }
    }
    assert(json_plain_text(" "@));
    assert forall|i: int| 0 <= i < items.len() implies #[trigger] json_plain_text(items[i]) by {
        let p = items[i];
        assert(items.contains(p));
        desk_numbers().lemma_filter_map_contains(f, p);
        let v = choose|v: nat| #[trigger] desk_numbers().contains(v) && f(v) == Some(p);
        let k = choose|k: int| 0 <= k < desk_numbers().len() && desk_numbers()[k] == v;
        assert(1 <= v <= DESK_COUNT);
        lemma_decimal_plain(v);
        assert(json_plain_text(desk_label(v)));
        if v == current {
            assert(json_plain_text(active_icon()));
        } else if occupied.contains(v) {
        } else {
            lemma_plain_concat(open_tag, desk_label(v));
            lemma_plain_concat(open_tag + desk_label(v), close_tag);
        }
    }
    lemma_join_plain(items, " "@);
}

/// The waybar line is one line, whatever the state.
pub proof fn law_waybar_line_is_one_line(current: nat, occupied: Seq<nat>)
    ensures
        single_line(waybar_line(current, occupied)),
{
    reveal_strlit("{\"text\":");
    reveal_strlit(",\"tooltip\":");
    reveal_strlit("}");
    let a = "{\"text\":"@;
    let b = ",\"tooltip\":"@;
    let c = "}"@;
    assert(single_line(a) && single_line(b) && single_line(c));
    let t = json_string(strip(current, occupied));
    let u = json_string(tooltip(current));
    law_json_string_is_one_line(strip(current, occupied));
    law_json_string_is_one_line(tooltip(current));
    lemma_single_line_concat(a, t);
    lemma_single_line_concat(a + t, b);
    lemma_single_line_concat(a + t + b, u);
    lemma_single_line_concat(a + t + b + u, c);
}

/// The strip and the tooltip need no escaping: the waybar line carries
/// them verbatim between double quotes.
pub proof fn law_waybar_members_are_verbatim(current: nat, occupied: Seq<nat>)
    ensures
        waybar_line(current, occupied) == payload(
            seq!['"'] + strip(current, occupied) + seq!['"'],
            seq!['"'] + tooltip(current) + seq!['"'],
        ),
{
    lemma_strip_plain(current, occupied);
    law_json_string_of_plain_text(strip(current, occupied));
    reveal_strlit("Desk ");
    let desk_word = "Desk "@;
    assert(json_plain_text(desk_word)) by {
        assert forall|i: int| 0 <= i < desk_word.len() implies #[trigger] json_plain(desk_word[i]) by {
            assert(desk_word =~= seq!['D', 'e', 's', 'k', ' ']);
        }
    }
    lemma_decimal_plain(current);
    lemma_plain_concat(desk_word, decimal(current));
    law_json_string_of_plain_text(tooltip(current));
}

} // verus!
