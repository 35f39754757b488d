//! The per-node property bag and its typed accessors.
//!
//! A [`Style`] maps property names to raw string values; keys are unique and
//! insertion order does not matter. Typed accessors parse raw values into
//! numbers (milli-pixels), colors and flags, degrading to a documented
//! default on absence or malformed input — they never fail.

use vstd::prelude::*;

use crate::num::{parse_milli, parse_milli_str, milli_in_range, lemma_parse_milli_range};
use crate::text::{
    contains_seq, ends_with_seq, split_ws, str_contains, str_ends_with, str_eq, str_trim,
    tokens, trim_seq,
};

verus! {

/// The map held by a sequence of key/value entries, later entries winning.
pub open spec fn map_of(entries: Seq<(Seq<char>, Seq<char>)>) -> Map<Seq<char>, Seq<char>>
    decreases entries.len(),
{
    if entries.len() == 0 {
        Map::empty()
    } else {
        map_of(entries.drop_last()).insert(entries.last().0, entries.last().1)
    }
}

/// Entry keys are pairwise distinct.
pub open spec fn keys_distinct(entries: Seq<(Seq<char>, Seq<char>)>) -> bool {
    forall|i: int, j: int|
        0 <= i < j < entries.len() ==> (#[trigger] entries[i]).0 != (#[trigger] entries[j]).0
}

/// An entry present under a key no later entry repeats gives its value to
/// the map.
proof fn lemma_map_of_index(entries: Seq<(Seq<char>, Seq<char>)>, i: int)
    requires
        0 <= i < entries.len(),
        forall|j: int| i < j < entries.len() ==> (#[trigger] entries[j]).0 != entries[i].0,
    ensures
        map_of(entries).contains_key(entries[i].0),
        map_of(entries)[entries[i].0] == entries[i].1,
    decreases entries.len(),
{
    if i < entries.len() - 1 {
        assert(entries.drop_last()[i] == entries[i]);
        lemma_map_of_index(entries.drop_last(), i);
    }
}

/// A key no entry holds is absent from the map.
proof fn lemma_map_of_absent(entries: Seq<(Seq<char>, Seq<char>)>, k: Seq<char>)
    requires
        forall|j: int| 0 <= j < entries.len() ==> (#[trigger] entries[j]).0 != k,
    ensures
        !map_of(entries).contains_key(k),
    decreases entries.len(),
{
    if entries.len() > 0 {
        assert forall|j: int| 0 <= j < entries.drop_last().len() implies (#[trigger] entries
            .drop_last()[j]).0 != k by {
            assert(entries.drop_last()[j] == entries[j]);
        }
        lemma_map_of_absent(entries.drop_last(), k);
    }
}

/// Overwriting the entry that holds key `k` updates the map at `k`.
proof fn lemma_map_of_update(
    entries: Seq<(Seq<char>, Seq<char>)>,
    i: int,
    k: Seq<char>,
    v: Seq<char>,
)
    requires
        keys_distinct(entries),
        0 <= i < entries.len(),
        entries[i].0 == k,
    ensures
        map_of(entries.update(i, (k, v))) == map_of(entries).insert(k, v),
    decreases entries.len(),
{
    let upd = entries.update(i, (k, v));
    if i == entries.len() - 1 {
        assert(upd.drop_last() =~= entries.drop_last());
        assert(map_of(upd) == map_of(entries.drop_last()).insert(k, v));
        assert(map_of(entries.drop_last()).insert(k, v) =~= map_of(entries).insert(k, v));
    } else {
        assert(upd.drop_last() =~= entries.drop_last().update(i, (k, v)));
        assert(keys_distinct(entries.drop_last())) by {
            assert forall|a: int, b: int|
                0 <= a < b < entries.drop_last().len() implies (#[trigger] entries.drop_last()[a]).0
                != (#[trigger] entries.drop_last()[b]).0 by {
                assert(entries.drop_last()[a] == entries[a]);
                assert(entries.drop_last()[b] == entries[b]);
            }
        }
        assert(entries.drop_last()[i] == entries[i]);
        lemma_map_of_update(entries.drop_last(), i, k, v);
        assert(upd.last() == entries.last());
        assert(entries.last().0 != k) by {
            assert(entries[i].0 == k);
            assert(entries[entries.len() - 1].0 != entries[i].0);
        }
        assert(map_of(upd) == map_of(entries.drop_last()).insert(k, v).insert(
            entries.last().0,
            entries.last().1,
        ));
        assert(map_of(entries.drop_last()).insert(k, v).insert(entries.last().0, entries.last().1)
            =~= map_of(entries.drop_last()).insert(entries.last().0, entries.last().1).insert(
            k,
            v,
        ));
    }
}

/// A resolved or declared property bag: property name to raw string value.
#[derive(Debug, Clone)]
pub struct Style {
    pub properties: Vec<(String, String)>,
}

impl View for Style {
    type V = Map<Seq<char>, Seq<char>>;

    open spec fn view(&self) -> Map<Seq<char>, Seq<char>> {
        map_of(self.properties.deep_view())
    }
}

impl Style {
    /// Well-formed: no property name occurs twice.
    pub open spec fn wf(&self) -> bool {
        keys_distinct(self.properties.deep_view())
    }

    /// An empty property bag.
    pub fn new() -> (r: Style)
        ensures
            r.wf(),
            r@ == Map::<Seq<char>, Seq<char>>::empty(),
    {
        Style { properties: Vec::new() }
    }

    /// The raw value stored under `key`, if any.
    pub fn get(&self, key: &str) -> (r: Option<&str>)
        requires
            self.wf(),
        ensures
            match r {
                Some(v) => self@.contains_key(key@) && v@ == self@[key@],
                None => !self@.contains_key(key@),
            },
    {
        let ghost entries = self.properties.deep_view();
        let n = self.properties.len();
        let mut i: usize = 0;
        while i < n
            invariant
                n == self.properties.len(),
                entries == self.properties.deep_view(),
                self.wf(),
                i <= n,
                forall|j: int| 0 <= j < i ==> (#[trigger] entries[j]).0 != key@,
            decreases n - i,
        {
            let p = &self.properties[i];
            if str_eq(p.0.as_str(), key) {
                proof {
                    assert(entries[i as int].0 == key@);
                    lemma_map_of_index(entries, i as int);
                }
                return Some(p.1.as_str());
            }
            i += 1;
        }
        proof {
            lemma_map_of_absent(entries, key@);
        }
        None
    }

    /// Stores `value` under `key`, replacing any earlier value.
    pub fn insert(&mut self, key: &str, value: &str)
        requires
            old(self).wf(),
        ensures
            final(self).wf(),
            final(self)@ == old(self)@.insert(key@, value@),
    {
        let ghost entries = self.properties.deep_view();
        let n = self.properties.len();
        let mut i: usize = 0;
        while i < n
            invariant
                n == self.properties.len(),
                entries == self.properties.deep_view(),
                self == old(self),
                self.wf(),
                i <= n,
                forall|j: int| 0 <= j < i ==> (#[trigger] entries[j]).0 != key@,
            decreases n - i,
        {
            let p = &self.properties[i];
            if str_eq(p.0.as_str(), key) {
                self.properties[i] = (String::from_str(key), String::from_str(value));
                proof {
                    let upd = entries.update(i as int, (key@, value@));
                    assert(self.properties.deep_view() =~= upd);
                    lemma_map_of_update(entries, i as int, key@, value@);
                    assert(entries[i as int].0 == key@);
                    assert forall|a: int, b: int| 0 <= a < b < upd.len() implies (
                    #[trigger] upd[a]).0 != (#[trigger] upd[b]).0 by {
                        assert(upd[a].0 == entries[a].0);
                        assert(upd[b].0 == entries[b].0);
                        assert(entries[a].0 != entries[b].0);
                    }
                }
                return ;
            }
            i += 1;
        }
        self.properties.push((String::from_str(key), String::from_str(value)));
        proof {
            assert(self.properties.deep_view().drop_last() =~= entries);
            assert(self.properties.deep_view().last() == (key@, value@));
            assert forall|a: int, b: int|
                0 <= a < b < self.properties.deep_view().len() implies (
            #[trigger] self.properties.deep_view()[a]).0 != (
            #[trigger] self.properties.deep_view()[b]).0 by {
                if b < entries.len() {
                    assert(entries[a].0 != entries[b].0);
                } else {
                    assert(entries[a].0 != key@);
                }
            }
        }
    }

    /// How many properties are set.
    pub fn len(&self) -> (r: usize)
        ensures
            r == self.properties.deep_view().len(),
    {
        self.properties.len()
    }

    /// The entry at position `i`, for walking all properties in order.
    pub fn entry_at(&self, i: usize) -> (r: (&String, &String))
        requires
            i < self.properties.deep_view().len(),
        ensures
            r.0@ == self.properties.deep_view()[i as int].0,
            r.1@ == self.properties.deep_view()[i as int].1,
    {
        let p = &self.properties[i];
        (&p.0, &p.1)
    }

    /// The entries as a sequence of key/value character pairs.
    pub open spec fn entries_view(&self) -> Seq<(Seq<char>, Seq<char>)> {
        self.properties.deep_view()
    }
}

impl Default for Style {
    fn default() -> (r: Style)
        ensures
            r.wf(),
            r@ == Map::<Seq<char>, Seq<char>>::empty(),
    {
        Style::new()
    }
}

// ---------------------------------------------------------------------------
// Numeric helpers shared by the typed accessors.
// ---------------------------------------------------------------------------

/// The value of an optional parse, or `d` on failure.
pub open spec fn opt_or(o: Option<int>, d: int) -> int {
    match o {
        Some(v) => v,
        None => d,
    }
}

/// Division truncating toward zero, for a positive divisor.
pub open spec fn div_trunc(a: int, b: int) -> int {
    if a >= 0 {
        a / b
    } else {
        -((-a) / b)
    }
}

/// Largest viewport dimension (in milli-pixels) the viewport-aware
/// accessors accept, so that scaled results stay inside `i64`.
pub const MAX_DIM_MILLI: i64 = 100_000_000_000;

/// `a / 100`, truncating toward zero.
fn div100(a: i64) -> (r: i64)
    requires
        milli_in_range(a as int),
    ensures
        r == div_trunc(a as int, 100),
{
    if a >= 0 {
        (((a as u64) / 100u64) as i64)
    } else {
        -((((-a) as u64) / 100u64) as i64)
    }
}

/// `dim * v / 100_000`, truncating toward zero: scales a parsed viewport
/// percentage `v` (milli) by a viewport dimension `dim` (milli-pixels).
fn scale_dim(dim: i64, v: i64) -> (r: i64)
    requires
        0 <= dim <= MAX_DIM_MILLI,
        milli_in_range(v as int),
    ensures
        r == div_trunc(dim * v, 100_000),
        -1_000_000_000_000_000_000 <= r <= 1_000_000_000_000_000_000,
{
    if v >= 0 {
        proof {
            assert(0 <= dim * v <= 100_000_000_000_000_000_000_000) by (nonlinear_arith)
                requires
                    0 <= dim <= 100_000_000_000,
                    0 <= v <= 1_000_000_000_000,
            ;
        }
        let p: u128 = (dim as u128) * (v as u128);
        let q: u128 = p / 100_000u128;
        q as i64
    } else {
        let m: i64 = -v;
        proof {
            assert(0 <= dim * m <= 100_000_000_000_000_000_000_000) by (nonlinear_arith)
                requires
                    0 <= dim <= 100_000_000_000,
                    0 <= m <= 1_000_000_000_000,
            ;
            assert(dim * v == -(dim * m)) by (nonlinear_arith)
                requires
                    m == -v,
            ;
        }
        let p: u128 = (dim as u128) * (m as u128);
        let q: u128 = p / 100_000u128;
        -(q as i64)
    }
}

// ---------------------------------------------------------------------------
// Hex colors.
// ---------------------------------------------------------------------------

/// Whether a character is a hexadecimal digit.
pub open spec fn is_hex_digit(c: char) -> bool {
    ('0' <= c && c <= '9') || ('a' <= c && c <= 'f') || ('A' <= c && c <= 'F')
}

/// The value of a hexadecimal digit.
pub open spec fn hex_val(c: char) -> int {
    if '0' <= c && c <= '9' {
        c as int - '0' as int
    } else if 'a' <= c && c <= 'f' {
        c as int - 'a' as int + 10
    } else if 'A' <= c && c <= 'F' {
        c as int - 'A' as int + 10
    } else {
        0
    }
}

/// Reads a color: after trimming, `#` followed by three hex digits (each
/// doubled) or by at least six (the first six used as RRGGBB). Any other
/// length, a missing `#`, or an unparsable digit among those used yields
/// black.
pub open spec fn hex_color(s: Seq<char>) -> (u8, u8, u8) {
    let t = trim_seq(s);
    if t.len() > 0 && t[0] == '#' {
        let h = t.drop_first();
        if h.len() == 3 {
            if is_hex_digit(h[0]) && is_hex_digit(h[1]) && is_hex_digit(h[2]) {
                (
                    (hex_val(h[0]) * 17) as u8,
                    (hex_val(h[1]) * 17) as u8,
                    (hex_val(h[2]) * 17) as u8,
                )
            } else {
                (0, 0, 0)
            }
        } else if h.len() >= 6 {
            if is_hex_digit(h[0]) && is_hex_digit(h[1]) && is_hex_digit(h[2]) && is_hex_digit(h[3])
                && is_hex_digit(h[4]) && is_hex_digit(h[5]) {
                (
                    (hex_val(h[0]) * 16 + hex_val(h[1])) as u8,
                    (hex_val(h[2]) * 16 + hex_val(h[3])) as u8,
                    (hex_val(h[4]) * 16 + hex_val(h[5])) as u8,
                )
            } else {
                (0, 0, 0)
            }
        } else {
            (0, 0, 0)
        }
    } else {
        (0, 0, 0)
    }
}

/// Whether a character is a hexadecimal digit; executable twin of
/// [`is_hex_digit`].
fn is_hex_digit_char(c: char) -> (r: bool)
    ensures
        r == is_hex_digit(c),
{
    (c >= '0' && c <= '9') || (c >= 'a' && c <= 'f') || (c >= 'A' && c <= 'F')
}

/// The value of a hexadecimal digit; executable twin of [`hex_val`].
fn hex_val_char(c: char) -> (r: u8)
    requires
        is_hex_digit(c),
    ensures
        r == hex_val(c),
        r <= 15,
{
    let u = c as u32;
    if c >= '0' && c <= '9' {
        (u - ('0' as u32)) as u8
    } else if c >= 'a' && c <= 'f' {
        (u - ('a' as u32) + 10) as u8
    } else {
        (u - ('A' as u32) + 10) as u8
    }
}

/// Parses a hex color string; executable twin of [`hex_color`].
pub fn parse_color(color: &str) -> (r: (u8, u8, u8))
    ensures
        r == hex_color(color@),
{
    let t = str_trim(color);
    let n = t.unicode_len();
    if n > 0 && t.get_char(0) == '#' {
        let ghost h = t@.drop_first();
        if n == 4 {
            let c0 = t.get_char(1);
            let c1 = t.get_char(2);
            let c2 = t.get_char(3);
            proof {
                assert(h[0] == t@[1] && h[1] == t@[2] && h[2] == t@[3]);
            }
            if is_hex_digit_char(c0) && is_hex_digit_char(c1) && is_hex_digit_char(c2) {
                (hex_val_char(c0) * 17, hex_val_char(c1) * 17, hex_val_char(c2) * 17)
            } else {
                (0, 0, 0)
            }
        } else if n >= 7 {
            let c0 = t.get_char(1);
            let c1 = t.get_char(2);
            let c2 = t.get_char(3);
            let c3 = t.get_char(4);
            let c4 = t.get_char(5);
            let c5 = t.get_char(6);
            proof {
                assert(h[0] == t@[1] && h[1] == t@[2] && h[2] == t@[3] && h[3] == t@[4] && h[4]
                    == t@[5] && h[5] == t@[6]);
            }
            if is_hex_digit_char(c0) && is_hex_digit_char(c1) && is_hex_digit_char(c2)
                && is_hex_digit_char(c3) && is_hex_digit_char(c4) && is_hex_digit_char(c5) {
                (
                    hex_val_char(c0) * 16 + hex_val_char(c1),
                    hex_val_char(c2) * 16 + hex_val_char(c3),
                    hex_val_char(c4) * 16 + hex_val_char(c5),
                )
            } else {
                (0, 0, 0)
            }
        } else {
            (0, 0, 0)
        }
    } else {
        (0, 0, 0)
    }
}

// ---------------------------------------------------------------------------
// Spacing values (padding and margin).
// ---------------------------------------------------------------------------

/// Reads one spacing value without viewport context: `px` literal, `em`
/// sixteenfold, `vh` left as its raw magnitude, anything else read as a
/// bare number; `0` on failure.
pub open spec fn spacing_value_milli(s: Seq<char>) -> int {
    let t = trim_seq(s);
    if ends_with_seq(t, "px"@) {
        opt_or(parse_milli(t.take(t.len() - 2)), 0)
    } else if ends_with_seq(t, "em"@) {
        16 * opt_or(parse_milli(t.take(t.len() - 2)), 0)
    } else if ends_with_seq(t, "vh"@) {
        opt_or(parse_milli(t.take(t.len() - 2)), 0)
    } else {
        opt_or(parse_milli(t), 0)
    }
}

/// Reads one spacing value with viewport context: as
/// [`spacing_value_milli`], except that `vh` is resolved against the
/// viewport height and `vw` is left as its raw magnitude.
pub open spec fn spacing_value_vp_milli(s: Seq<char>, vh: int) -> int {
    let t = trim_seq(s);
    if ends_with_seq(t, "px"@) {
        opt_or(parse_milli(t.take(t.len() - 2)), 0)
    } else if ends_with_seq(t, "em"@) {
        16 * opt_or(parse_milli(t.take(t.len() - 2)), 0)
    } else if ends_with_seq(t, "vh"@) {
        div_trunc(vh * opt_or(parse_milli(t.take(t.len() - 2)), 0), 100_000)
    } else if ends_with_seq(t, "vw"@) {
        opt_or(parse_milli(t.take(t.len() - 2)), 0)
    } else {
        opt_or(parse_milli(t), 0)
    }
}

/// All spacing results stay within these bounds.
pub open spec fn spacing_in_range(v: int) -> bool {
    -16_000_000_000_000 <= v <= 16_000_000_000_000
}

/// Executable twin of [`spacing_value_milli`].
fn spacing_value_str(s: &str) -> (r: i64)
    ensures
        r == spacing_value_milli(s@),
        spacing_in_range(r as int),
{
    let t = str_trim(s);
    let n = t.unicode_len();
    proof {
        reveal_strlit("px");
        reveal_strlit("em");
        reveal_strlit("vh");
    }
    if str_ends_with(t, "px") {
        let stripped = t.substring_char(0, n - 2);
        proof {
            assert(stripped@ =~= t@.take(n - 2));
        }
        opt_milli_or0(parse_milli_str(stripped), Ghost(t@.take(n - 2)))
    } else if str_ends_with(t, "em") {
        let stripped = t.substring_char(0, n - 2);
        proof {
            assert(stripped@ =~= t@.take(n - 2));
        }
        let v = opt_milli_or0(parse_milli_str(stripped), Ghost(t@.take(n - 2)));
        16 * v
    } else if str_ends_with(t, "vh") {
        let stripped = t.substring_char(0, n - 2);
        proof {
            assert(stripped@ =~= t@.take(n - 2));
        }
        opt_milli_or0(parse_milli_str(stripped), Ghost(t@.take(n - 2)))
    } else {
        opt_milli_or0(parse_milli_str(t), Ghost(t@))
    }
}

/// Executable twin of [`spacing_value_vp_milli`].
fn spacing_value_vp_str(s: &str, vh: i64) -> (r: i64)
    requires
        0 <= vh <= MAX_DIM_MILLI,
    ensures
        r == spacing_value_vp_milli(s@, vh as int),
        -1_000_000_000_000_000_000 <= r <= 1_000_000_000_000_000_000,
{
    let t = str_trim(s);
    let n = t.unicode_len();
    proof {
        reveal_strlit("px");
        reveal_strlit("em");
        reveal_strlit("vh");
        reveal_strlit("vw");
    }
    if str_ends_with(t, "px") {
        let stripped = t.substring_char(0, n - 2);
        proof {
            assert(stripped@ =~= t@.take(n - 2));
        }
        opt_milli_or0(parse_milli_str(stripped), Ghost(t@.take(n - 2)))
    } else if str_ends_with(t, "em") {
        let stripped = t.substring_char(0, n - 2);
        proof {
            assert(stripped@ =~= t@.take(n - 2));
        }
        let v = opt_milli_or0(parse_milli_str(stripped), Ghost(t@.take(n - 2)));
        16 * v
    } else if str_ends_with(t, "vh") {
        let stripped = t.substring_char(0, n - 2);
        proof {
            assert(stripped@ =~= t@.take(n - 2));
        }
        let v = opt_milli_or0(parse_milli_str(stripped), Ghost(t@.take(n - 2)));
        scale_dim(vh, v)
    } else if str_ends_with(t, "vw") {
        let stripped = t.substring_char(0, n - 2);
        proof {
            assert(stripped@ =~= t@.take(n - 2));
        }
        opt_milli_or0(parse_milli_str(stripped), Ghost(t@.take(n - 2)))
    } else {
        opt_milli_or0(parse_milli_str(t), Ghost(t@))
    }
}

/// Unwraps a parse result to its value, or to zero.
fn opt_milli_or0(o: Option<i64>, sub: Ghost<Seq<char>>) -> (r: i64)
    requires
        match o {
            Some(v) => parse_milli(sub@) == Some(v as int),
            None => parse_milli(sub@) is None,
        },
    ensures
        r == opt_or(parse_milli(sub@), 0),
        milli_in_range(r as int),
{
    proof {
        lemma_parse_milli_range(sub@);
    }
    match o {
        Some(v) => v,
        None => 0,
    }
}

/// Reads one margin value: `auto` counts as zero (layout resolves it),
/// otherwise as a spacing value.
pub open spec fn margin_value_milli(s: Seq<char>) -> int {
    if trim_seq(s) == "auto"@ {
        0
    } else {
        spacing_value_milli(s)
    }
}

/// Viewport-aware twin of [`margin_value_milli`].
pub open spec fn margin_value_vp_milli(s: Seq<char>, vh: int) -> int {
    if trim_seq(s) == "auto"@ {
        0
    } else {
        spacing_value_vp_milli(s, vh)
    }
}

/// Executable twin of [`margin_value_milli`].
fn margin_value_str(s: &str) -> (r: i64)
    ensures
        r == margin_value_milli(s@),
        spacing_in_range(r as int),
{
    let t = str_trim(s);
    if str_eq(t, "auto") {
        0
    } else {
        spacing_value_str(s)
    }
}

/// Executable twin of [`margin_value_vp_milli`].
fn margin_value_vp_str(s: &str, vh: i64) -> (r: i64)
    requires
        0 <= vh <= MAX_DIM_MILLI,
    ensures
        r == margin_value_vp_milli(s@, vh as int),
        -1_000_000_000_000_000_000 <= r <= 1_000_000_000_000_000_000,
{
    let t = str_trim(s);
    if str_eq(t, "auto") {
        0
    } else {
        spacing_value_vp_str(s, vh)
    }
}

// ---------------------------------------------------------------------------
// Typed accessor specifications.
// ---------------------------------------------------------------------------

/// The font family, `Times New Roman` when unset.
pub open spec fn spec_font_family(m: Map<Seq<char>, Seq<char>>) -> Seq<char> {
    if m.contains_key("font-family"@) {
        m["font-family"@]
    } else {
        "Times New Roman"@
    }
}

/// The font size in milli-pixels: a number with optional `px`, `em` or
/// `rem` suffix, `em` and `rem` sixteenfold; `16_000` when unset or
/// malformed.
pub open spec fn spec_font_size_milli(m: Map<Seq<char>, Seq<char>>) -> int {
    if m.contains_key("font-size"@) {
        let t = trim_seq(m["font-size"@]);
        if ends_with_seq(t, "px"@) {
            opt_or(parse_milli(t.take(t.len() - 2)), 16_000)
        } else if ends_with_seq(t, "rem"@) {
            match parse_milli(t.take(t.len() - 3)) {
                Some(v) => 16 * v,
                None => 16_000,
            }
        } else if ends_with_seq(t, "em"@) {
            match parse_milli(t.take(t.len() - 2)) {
                Some(v) => 16 * v,
                None => 16_000,
            }
        } else {
            opt_or(parse_milli(t), 16_000)
        }
    } else {
        16_000
    }
}

/// The font weight string, `normal` when unset.
pub open spec fn spec_font_weight(m: Map<Seq<char>, Seq<char>>) -> Seq<char> {
    if m.contains_key("font-weight"@) {
        m["font-weight"@]
    } else {
        "normal"@
    }
}

/// Bold iff the weight is `bold`, `700`, `800` or `900`.
pub open spec fn spec_is_bold(m: Map<Seq<char>, Seq<char>>) -> bool {
    spec_font_weight(m) == "bold"@ || spec_font_weight(m) == "700"@ || spec_font_weight(m)
        == "800"@ || spec_font_weight(m) == "900"@
}

/// The font style string, `normal` when unset.
pub open spec fn spec_font_style(m: Map<Seq<char>, Seq<char>>) -> Seq<char> {
    if m.contains_key("font-style"@) {
        m["font-style"@]
    } else {
        "normal"@
    }
}

/// Italic iff the style is exactly `italic`.
pub open spec fn spec_is_italic(m: Map<Seq<char>, Seq<char>>) -> bool {
    spec_font_style(m) == "italic"@
}

/// The foreground color, black when unset.
pub open spec fn spec_color(m: Map<Seq<char>, Seq<char>>) -> (u8, u8, u8) {
    if m.contains_key("color"@) {
        hex_color(m["color"@])
    } else {
        (0, 0, 0)
    }
}

/// The background color: `background` first, then `background-color`,
/// none when neither is set.
pub open spec fn spec_background(m: Map<Seq<char>, Seq<char>>) -> Option<(u8, u8, u8)> {
    if m.contains_key("background"@) {
        Some(hex_color(m["background"@]))
    } else if m.contains_key("background-color"@) {
        Some(hex_color(m["background-color"@]))
    } else {
        None
    }
}

/// The opacity in milli-units, `1_000` when unset or malformed.
pub open spec fn spec_opacity_milli(m: Map<Seq<char>, Seq<char>>) -> int {
    if m.contains_key("opacity"@) {
        opt_or(parse_milli(trim_seq(m["opacity"@])), 1_000)
    } else {
        1_000
    }
}

/// Whether the text decoration value contains `d` as a substring.
pub open spec fn spec_has_text_decoration(m: Map<Seq<char>, Seq<char>>, d: Seq<char>) -> bool {
    m.contains_key("text-decoration"@) && contains_seq(m["text-decoration"@], d)
}

/// The width as a fraction of the viewport in milli-units (`1_000` is the
/// full width): `vw` and `%` values divided by one hundred, any other unit
/// none.
pub open spec fn spec_width_fraction(m: Map<Seq<char>, Seq<char>>) -> Option<int> {
    if m.contains_key("width"@) {
        let t = trim_seq(m["width"@]);
        if ends_with_seq(t, "vw"@) {
            match parse_milli(t.take(t.len() - 2)) {
                Some(v) => Some(div_trunc(v, 100)),
                None => None,
            }
        } else if ends_with_seq(t, "%"@) {
            match parse_milli(t.take(t.len() - 1)) {
                Some(v) => Some(div_trunc(v, 100)),
                None => None,
            }
        } else {
            None
        }
    } else {
        None
    }
}

/// One width-like value in milli-pixels: `vw` and `%` resolved against the
/// viewport width, `px` literal, anything else read as a bare number.
pub open spec fn width_px_of(v: Seq<char>, vw: int) -> Option<int> {
    let t = trim_seq(v);
    if ends_with_seq(t, "vw"@) {
        match parse_milli(t.take(t.len() - 2)) {
            Some(x) => Some(div_trunc(vw * x, 100_000)),
            None => None,
        }
    } else if ends_with_seq(t, "%"@) {
        match parse_milli(t.take(t.len() - 1)) {
            Some(x) => Some(div_trunc(vw * x, 100_000)),
            None => None,
        }
    } else if ends_with_seq(t, "px"@) {
        parse_milli(t.take(t.len() - 2))
    } else {
        parse_milli(t)
    }
}

/// The `width` property in milli-pixels against a viewport width.
pub open spec fn spec_width_px(m: Map<Seq<char>, Seq<char>>, vw: int) -> Option<int> {
    if m.contains_key("width"@) {
        width_px_of(m["width"@], vw)
    } else {
        None
    }
}

/// The `max-width` property in milli-pixels against a viewport width.
pub open spec fn spec_max_width_px(m: Map<Seq<char>, Seq<char>>, vw: int) -> Option<int> {
    if m.contains_key("max-width"@) {
        width_px_of(m["max-width"@], vw)
    } else {
        None
    }
}

/// The four padding sides in milli-pixels, from the `padding` shorthand.
pub open spec fn spec_padding(m: Map<Seq<char>, Seq<char>>) -> (int, int, int, int) {
    if m.contains_key("padding"@) {
        shorthand4(tokens(m["padding"@]).map_values(|t: Seq<char>| spacing_value_milli(t)))
    } else {
        (0, 0, 0, 0)
    }
}

/// The four margin sides in milli-pixels: the `margin` shorthand expanded,
/// then each `margin-top/right/bottom/left` longhand overriding its side.
pub open spec fn spec_margin(m: Map<Seq<char>, Seq<char>>) -> (int, int, int, int) {
    let base = if m.contains_key("margin"@) {
        shorthand4(tokens(m["margin"@]).map_values(|t: Seq<char>| margin_value_milli(t)))
    } else {
        (0, 0, 0, 0)
    };
    let top = if m.contains_key("margin-top"@) {
        margin_value_milli(m["margin-top"@])
    } else {
        base.0
    };
    let right = if m.contains_key("margin-right"@) {
        margin_value_milli(m["margin-right"@])
    } else {
        base.1
    };
    let bottom = if m.contains_key("margin-bottom"@) {
        margin_value_milli(m["margin-bottom"@])
    } else {
        base.2
    };
    let left = if m.contains_key("margin-left"@) {
        margin_value_milli(m["margin-left"@])
    } else {
        base.3
    };
    (top, right, bottom, left)
}

/// Viewport-aware twin of [`spec_margin`]: `vh` values resolve against the
/// viewport height.
pub open spec fn spec_margin_vp(m: Map<Seq<char>, Seq<char>>, vh: int) -> (int, int, int, int) {
    let base = if m.contains_key("margin"@) {
        shorthand4(tokens(m["margin"@]).map_values(|t: Seq<char>| margin_value_vp_milli(t, vh)))
    } else {
        (0, 0, 0, 0)
    };
    let top = if m.contains_key("margin-top"@) {
        margin_value_vp_milli(m["margin-top"@], vh)
    } else {
        base.0
    };
    let right = if m.contains_key("margin-right"@) {
        margin_value_vp_milli(m["margin-right"@], vh)
    } else {
        base.1
    };
    let bottom = if m.contains_key("margin-bottom"@) {
        margin_value_vp_milli(m["margin-bottom"@], vh)
    } else {
        base.2
    };
    let left = if m.contains_key("margin-left"@) {
        margin_value_vp_milli(m["margin-left"@], vh)
    } else {
        base.3
    };
    (top, right, bottom, left)
}

/// Centering is requested iff both `margin-left` and `margin-right` are
/// `auto`, or the two-value shorthand's second token is `auto`, or the
/// four-value shorthand's second and fourth tokens are both `auto`.
pub open spec fn spec_has_auto_h_margin(m: Map<Seq<char>, Seq<char>>) -> bool {
    let left_auto = m.contains_key("margin-left"@) && trim_seq(m["margin-left"@]) == "auto"@;
    let right_auto = m.contains_key("margin-right"@) && trim_seq(m["margin-right"@]) == "auto"@;
    if left_auto && right_auto {
        true
    } else if m.contains_key("margin"@) {
        let parts = tokens(m["margin"@]);
        if parts.len() == 2 {
            parts[1] == "auto"@
        } else if parts.len() == 4 {
            parts[1] == "auto"@ && parts[3] == "auto"@
        } else {
            false
        }
    } else {
        false
    }
}

/// Expands a whitespace-split shorthand into `(top, right, bottom, left)`
/// using a per-token value function already applied: one token sets all
/// four sides; two set vertical then horizontal; three set top, horizontal,
/// bottom; four or more set the four sides in order, extras ignored; none
/// sets everything to zero.
pub open spec fn shorthand4(vals: Seq<int>) -> (int, int, int, int) {
    if vals.len() == 0 {
        (0, 0, 0, 0)
    } else if vals.len() == 1 {
        (vals[0], vals[0], vals[0], vals[0])
    } else if vals.len() == 2 {
        (vals[0], vals[1], vals[0], vals[1])
    } else if vals.len() == 3 {
        (vals[0], vals[1], vals[2], vals[1])
    } else {
        (vals[0], vals[1], vals[2], vals[3])
    }
}

/// One width-like value; executable twin of [`width_px_of`].
fn width_px_str(v: &str, vw: i64) -> (r: Option<i64>)
    requires
        0 <= vw <= MAX_DIM_MILLI,
    ensures
        match r {
            Some(x) => width_px_of(v@, vw as int) == Some(x as int)
                && -1_000_000_000_000_000_000 <= x <= 1_000_000_000_000_000_000,
            None => width_px_of(v@, vw as int) is None,
        },
{
    let t = str_trim(v);
    let n = t.unicode_len();
    proof {
        reveal_strlit("vw");
        reveal_strlit("%");
        reveal_strlit("px");
    }
    if str_ends_with(t, "vw") {
        let stripped = t.substring_char(0, n - 2);
        proof {
            assert(stripped@ =~= t@.take(n - 2));
        }
        match parse_milli_str(stripped) {
            Some(x) => {
                proof {
                    lemma_parse_milli_range(stripped@);
                }
                Some(scale_dim(vw, x))
            },
            None => None,
        }
    } else if str_ends_with(t, "%") {
        let stripped = t.substring_char(0, n - 1);
        proof {
            assert(stripped@ =~= t@.take(n - 1));
        }
        match parse_milli_str(stripped) {
            Some(x) => {
                proof {
                    lemma_parse_milli_range(stripped@);
                }
                Some(scale_dim(vw, x))
            },
            None => None,
        }
    } else if str_ends_with(t, "px") {
        let stripped = t.substring_char(0, n - 2);
        proof {
            assert(stripped@ =~= t@.take(n - 2));
            lemma_parse_milli_range(stripped@);
        }
        parse_milli_str(stripped)
    } else {
        proof {
            lemma_parse_milli_range(t@);
        }
        parse_milli_str(t)
    }
}

impl Style {
    /// The font family, `Times New Roman` when unset.
    pub fn get_font_family(&self) -> (r: &str)
        requires
            self.wf(),
        ensures
            r@ == spec_font_family(self@),
    {
        match self.get("font-family") {
            Some(v) => v,
            None => "Times New Roman",
        }
    }

    /// The font size in milli-pixels; executable twin of
    /// [`spec_font_size_milli`].
    pub fn get_font_size(&self) -> (r: i64)
        requires
            self.wf(),
        ensures
            r == spec_font_size_milli(self@),
            spacing_in_range(r as int),
    {
        match self.get("font-size") {
            None => 16_000,
            Some(v) => {
                let t = str_trim(v);
                let n = t.unicode_len();
                proof {
                    reveal_strlit("px");
                    reveal_strlit("rem");
                    reveal_strlit("em");
                }
                if str_ends_with(t, "px") {
                    let stripped = t.substring_char(0, n - 2);
                    proof {
                        assert(stripped@ =~= t@.take(n - 2));
                        lemma_parse_milli_range(stripped@);
                    }
                    match parse_milli_str(stripped) {
                        Some(x) => x,
                        None => 16_000,
                    }
                } else if str_ends_with(t, "rem") {
                    let stripped = t.substring_char(0, n - 3);
                    proof {
                        assert(stripped@ =~= t@.take(n - 3));
                        lemma_parse_milli_range(stripped@);
                    }
                    match parse_milli_str(stripped) {
                        Some(x) => 16 * x,
                        None => 16_000,
                    }
                } else if str_ends_with(t, "em") {
                    let stripped = t.substring_char(0, n - 2);
                    proof {
                        assert(stripped@ =~= t@.take(n - 2));
                        lemma_parse_milli_range(stripped@);
                    }
                    match parse_milli_str(stripped) {
                        Some(x) => 16 * x,
                        None => 16_000,
                    }
                } else {
                    proof {
                        lemma_parse_milli_range(t@);
                    }
                    match parse_milli_str(t) {
                        Some(x) => x,
                        None => 16_000,
                    }
                }
            },
        }
    }

    /// The font weight string, `normal` when unset.
    pub fn get_font_weight(&self) -> (r: &str)
        requires
            self.wf(),
        ensures
            r@ == spec_font_weight(self@),
    {
        match self.get("font-weight") {
            Some(v) => v,
            None => "normal",
        }
    }

    /// Bold iff the weight is `bold`, `700`, `800` or `900`.
    pub fn is_bold(&self) -> (r: bool)
        requires
            self.wf(),
        ensures
            r == spec_is_bold(self@),
    {
        let w = self.get_font_weight();
        str_eq(w, "bold") || str_eq(w, "700") || str_eq(w, "800") || str_eq(w, "900")
    }

    /// The font style string, `normal` when unset.
    pub fn get_font_style(&self) -> (r: &str)
        requires
            self.wf(),
        ensures
            r@ == spec_font_style(self@),
    {
        match self.get("font-style") {
            Some(v) => v,
            None => "normal",
        }
    }

    /// Italic iff the style is exactly `italic`.
    pub fn is_italic(&self) -> (r: bool)
        requires
            self.wf(),
        ensures
            r == spec_is_italic(self@),
    {
        str_eq(self.get_font_style(), "italic")
    }

    /// The foreground color, black when unset.
    pub fn get_color(&self) -> (r: (u8, u8, u8))
        requires
            self.wf(),
        ensures
            r == spec_color(self@),
    {
        match self.get("color") {
            Some(v) => parse_color(v),
            None => (0, 0, 0),
        }
    }

    /// The background color, from `background` then `background-color`.
    pub fn get_background_color(&self) -> (r: Option<(u8, u8, u8)>)
        requires
            self.wf(),
        ensures
            r == spec_background(self@),
    {
        match self.get("background") {
            Some(v) => Some(parse_color(v)),
            None => match self.get("background-color") {
                Some(v) => Some(parse_color(v)),
                None => None,
            },
        }
    }

    /// The opacity in milli-units, `1_000` when unset or malformed.
    pub fn get_opacity(&self) -> (r: i64)
        requires
            self.wf(),
        ensures
            r == spec_opacity_milli(self@),
            milli_in_range(r as int),
    {
        match self.get("opacity") {
            None => 1_000,
            Some(v) => {
                let t = str_trim(v);
                proof {
                    lemma_parse_milli_range(t@);
                }
                match parse_milli_str(t) {
                    Some(x) => x,
                    None => 1_000,
                }
            },
        }
    }

    /// The raw `text-decoration` value, if set.
    pub fn get_text_decoration(&self) -> (r: Option<&str>)
        requires
            self.wf(),
        ensures
            match r {
                Some(v) => self@.contains_key("text-decoration"@) && v@ == self@["text-decoration"@],
                None => !self@.contains_key("text-decoration"@),
            },
    {
        self.get("text-decoration")
    }

    /// Whether the text decoration contains `decoration` as a substring.
    pub fn has_text_decoration(&self, decoration: &str) -> (r: bool)
        requires
            self.wf(),
        ensures
            r == spec_has_text_decoration(self@, decoration@),
    {
        match self.get_text_decoration() {
            Some(d) => str_contains(d, decoration),
            None => false,
        }
    }

    /// The width as a fraction of the viewport in milli-units.
    pub fn get_width_percentage(&self) -> (r: Option<i64>)
        requires
            self.wf(),
        ensures
            match r {
                Some(x) => spec_width_fraction(self@) == Some(x as int),
                None => spec_width_fraction(self@) is None,
            },
    {
        match self.get("width") {
            None => None,
            Some(v) => {
                let t = str_trim(v);
                let n = t.unicode_len();
                proof {
                    reveal_strlit("vw");
                    reveal_strlit("%");
                }
                if str_ends_with(t, "vw") {
                    let stripped = t.substring_char(0, n - 2);
                    proof {
                        assert(stripped@ =~= t@.take(n - 2));
                        lemma_parse_milli_range(stripped@);
                    }
                    match parse_milli_str(stripped) {
                        Some(x) => Some(div100(x)),
                        None => None,
                    }
                } else if str_ends_with(t, "%") {
                    let stripped = t.substring_char(0, n - 1);
                    proof {
                        assert(stripped@ =~= t@.take(n - 1));
                        lemma_parse_milli_range(stripped@);
                    }
                    match parse_milli_str(stripped) {
                        Some(x) => Some(div100(x)),
                        None => None,
                    }
                } else {
                    None
                }
            },
        }
    }

    /// The `width` property in milli-pixels against a viewport width in
    /// milli-pixels.
    pub fn get_width_px(&self, viewport_width: i64) -> (r: Option<i64>)
        requires
            self.wf(),
            0 <= viewport_width <= MAX_DIM_MILLI,
        ensures
            match r {
                Some(x) => spec_width_px(self@, viewport_width as int) == Some(x as int),
                None => spec_width_px(self@, viewport_width as int) is None,
            },
    {
        match self.get("width") {
            Some(v) => width_px_str(v, viewport_width),
            None => None,
        }
    }

    /// The `max-width` property in milli-pixels against a viewport width
    /// in milli-pixels.
    pub fn get_max_width_px(&self, viewport_width: i64) -> (r: Option<i64>)
        requires
            self.wf(),
            0 <= viewport_width <= MAX_DIM_MILLI,
        ensures
            match r {
                Some(x) => spec_max_width_px(self@, viewport_width as int) == Some(x as int),
                None => spec_max_width_px(self@, viewport_width as int) is None,
            },
    {
        match self.get("max-width") {
            Some(v) => width_px_str(v, viewport_width),
            None => None,
        }
    }

    /// The four padding sides `(top, right, bottom, left)` in
    /// milli-pixels.
    pub fn get_padding(&self) -> (r: (i64, i64, i64, i64))
        requires
            self.wf(),
        ensures
            r.0 == spec_padding(self@).0,
            r.1 == spec_padding(self@).1,
            r.2 == spec_padding(self@).2,
            r.3 == spec_padding(self@).3,
    {
        match self.get("padding") {
            None => (0, 0, 0, 0),
            Some(ps) => {
                let parts = split_ws(ps);
                let ghost vals = tokens(ps@).map_values(|t: Seq<char>| spacing_value_milli(t));
                if parts.len() == 0 {
                    (0, 0, 0, 0)
                } else if parts.len() == 1 {
                    let v0 = spacing_value_str(parts[0].as_str());
                    proof {
                        assert(parts.deep_view()[0] == parts@[0]@);
                    }
                    (v0, v0, v0, v0)
                } else if parts.len() == 2 {
                    let v0 = spacing_value_str(parts[0].as_str());
                    let v1 = spacing_value_str(parts[1].as_str());
                    proof {
                        assert(parts.deep_view()[0] == parts@[0]@);
                        assert(parts.deep_view()[1] == parts@[1]@);
                    }
                    (v0, v1, v0, v1)
                } else if parts.len() == 3 {
                    let v0 = spacing_value_str(parts[0].as_str());
                    let v1 = spacing_value_str(parts[1].as_str());
                    let v2 = spacing_value_str(parts[2].as_str());
                    proof {
                        assert(parts.deep_view()[0] == parts@[0]@);
                        assert(parts.deep_view()[1] == parts@[1]@);
                        assert(parts.deep_view()[2] == parts@[2]@);
                    }
                    (v0, v1, v2, v1)
                } else {
                    let v0 = spacing_value_str(parts[0].as_str());
                    let v1 = spacing_value_str(parts[1].as_str());
                    let v2 = spacing_value_str(parts[2].as_str());
                    let v3 = spacing_value_str(parts[3].as_str());
                    proof {
                        assert(parts.deep_view()[0] == parts@[0]@);
                        assert(parts.deep_view()[1] == parts@[1]@);
                        assert(parts.deep_view()[2] == parts@[2]@);
                        assert(parts.deep_view()[3] == parts@[3]@);
                    }
                    (v0, v1, v2, v3)
                }
            },
        }
    }

    /// The four margin sides `(top, right, bottom, left)` in milli-pixels,
    /// without viewport context.
    pub fn get_margin(&self) -> (r: (i64, i64, i64, i64))
        requires
            self.wf(),
        ensures
            r.0 == spec_margin(self@).0,
            r.1 == spec_margin(self@).1,
            r.2 == spec_margin(self@).2,
            r.3 == spec_margin(self@).3,
    {
        let mut top: i64 = 0;
        let mut right: i64 = 0;
        let mut bottom: i64 = 0;
        let mut left: i64 = 0;
        match self.get("margin") {
            None => (),
            Some(ms) => {
                let parts = split_ws(ms);
                let ghost vals = tokens(ms@).map_values(|t: Seq<char>| margin_value_milli(t));
                if parts.len() == 1 {
                    let v0 = margin_value_str(parts[0].as_str());
                    proof {
                        assert(parts.deep_view()[0] == parts@[0]@);
                    }
                    top = v0;
                    right = v0;
                    bottom = v0;
                    left = v0;
                } else if parts.len() == 2 {
                    let v0 = margin_value_str(parts[0].as_str());
                    let v1 = margin_value_str(parts[1].as_str());
                    proof {
                        assert(parts.deep_view()[0] == parts@[0]@);
                        assert(parts.deep_view()[1] == parts@[1]@);
                    }
                    top = v0;
                    bottom = v0;
                    right = v1;
                    left = v1;
                } else if parts.len() == 3 {
                    let v0 = margin_value_str(parts[0].as_str());
                    let v1 = margin_value_str(parts[1].as_str());
                    let v2 = margin_value_str(parts[2].as_str());
                    proof {
                        assert(parts.deep_view()[0] == parts@[0]@);
                        assert(parts.deep_view()[1] == parts@[1]@);
                        assert(parts.deep_view()[2] == parts@[2]@);
                    }
                    top = v0;
                    right = v1;
                    left = v1;
                    bottom = v2;
                } else if parts.len() >= 4 {
                    let v0 = margin_value_str(parts[0].as_str());
                    let v1 = margin_value_str(parts[1].as_str());
                    let v2 = margin_value_str(parts[2].as_str());
                    let v3 = margin_value_str(parts[3].as_str());
                    proof {
                        assert(parts.deep_view()[0] == parts@[0]@);
                        assert(parts.deep_view()[1] == parts@[1]@);
                        assert(parts.deep_view()[2] == parts@[2]@);
                        assert(parts.deep_view()[3] == parts@[3]@);
                    }
                    top = v0;
                    right = v1;
                    bottom = v2;
                    left = v3;
                }
            },
        }
        if let Some(mt) = self.get("margin-top") {
            top = margin_value_str(mt);
        }
        if let Some(mr) = self.get("margin-right") {
            right = margin_value_str(mr);
        }
        if let Some(mb) = self.get("margin-bottom") {
            bottom = margin_value_str(mb);
        }
        if let Some(ml) = self.get("margin-left") {
            left = margin_value_str(ml);
        }
        (top, right, bottom, left)
    }

    /// The four margin sides `(top, right, bottom, left)` in milli-pixels,
    /// with `vh` values resolved against `viewport_height` (milli-pixels).
    pub fn get_margin_with_viewport(&self, viewport_height: i64) -> (r: (i64, i64, i64, i64))
        requires
            self.wf(),
            0 <= viewport_height <= MAX_DIM_MILLI,
        ensures
            r.0 == spec_margin_vp(self@, viewport_height as int).0,
            r.1 == spec_margin_vp(self@, viewport_height as int).1,
            r.2 == spec_margin_vp(self@, viewport_height as int).2,
            r.3 == spec_margin_vp(self@, viewport_height as int).3,
    {
        let mut top: i64 = 0;
        let mut right: i64 = 0;
        let mut bottom: i64 = 0;
        let mut left: i64 = 0;
        match self.get("margin") {
            None => (),
            Some(ms) => {
                let parts = split_ws(ms);
                let ghost vals = tokens(ms@).map_values(
                    |t: Seq<char>| margin_value_vp_milli(t, viewport_height as int),
                );
                if parts.len() == 1 {
                    let v0 = margin_value_vp_str(parts[0].as_str(), viewport_height);
                    proof {
                        assert(parts.deep_view()[0] == parts@[0]@);
                    }
                    top = v0;
                    right = v0;
                    bottom = v0;
                    left = v0;
                } else if parts.len() == 2 {
                    let v0 = margin_value_vp_str(parts[0].as_str(), viewport_height);
                    let v1 = margin_value_vp_str(parts[1].as_str(), viewport_height);
                    proof {
                        assert(parts.deep_view()[0] == parts@[0]@);
                        assert(parts.deep_view()[1] == parts@[1]@);
                    }
                    top = v0;
                    bottom = v0;
                    right = v1;
                    left = v1;
                } else if parts.len() == 3 {
                    let v0 = margin_value_vp_str(parts[0].as_str(), viewport_height);
                    let v1 = margin_value_vp_str(parts[1].as_str(), viewport_height);
                    let v2 = margin_value_vp_str(parts[2].as_str(), viewport_height);
                    proof {
                        assert(parts.deep_view()[0] == parts@[0]@);
                        assert(parts.deep_view()[1] == parts@[1]@);
                        assert(parts.deep_view()[2] == parts@[2]@);
                    }
                    top = v0;
                    right = v1;
                    left = v1;
                    bottom = v2;
                } else if parts.len() >= 4 {
                    let v0 = margin_value_vp_str(parts[0].as_str(), viewport_height);
                    let v1 = margin_value_vp_str(parts[1].as_str(), viewport_height);
                    let v2 = margin_value_vp_str(parts[2].as_str(), viewport_height);
                    let v3 = margin_value_vp_str(parts[3].as_str(), viewport_height);
                    proof {
                        assert(parts.deep_view()[0] == parts@[0]@);
                        assert(parts.deep_view()[1] == parts@[1]@);
                        assert(parts.deep_view()[2] == parts@[2]@);
                        assert(parts.deep_view()[3] == parts@[3]@);
                    }
                    top = v0;
                    right = v1;
                    bottom = v2;
                    left = v3;
                }
            },
        }
        if let Some(mt) = self.get("margin-top") {
            top = margin_value_vp_str(mt, viewport_height);
        }
        if let Some(mr) = self.get("margin-right") {
            right = margin_value_vp_str(mr, viewport_height);
        }
        if let Some(mb) = self.get("margin-bottom") {
            bottom = margin_value_vp_str(mb, viewport_height);
        }
        if let Some(ml) = self.get("margin-left") {
            left = margin_value_vp_str(ml, viewport_height);
        }
        (top, right, bottom, left)
    }

    /// Whether centering through `auto` horizontal margins is requested;
    /// executable twin of [`spec_has_auto_h_margin`].
    pub fn has_auto_horizontal_margin(&self) -> (r: bool)
        requires
            self.wf(),
        ensures
            r == spec_has_auto_h_margin(self@),
    {
        let left_auto = match self.get("margin-left") {
            Some(v) => str_eq(str_trim(v), "auto"),
            None => false,
        };
        let right_auto = match self.get("margin-right") {
            Some(v) => str_eq(str_trim(v), "auto"),
            None => false,
        };
        if left_auto && right_auto {
            return true;
        }
        match self.get("margin") {
            Some(ms) => {
                let parts = split_ws(ms);
                if parts.len() == 2 {
                    proof {
                        assert(parts.deep_view()[1] == parts@[1]@);
                    }
                    str_eq(parts[1].as_str(), "auto")
                } else if parts.len() == 4 {
                    proof {
                        assert(parts.deep_view()[1] == parts@[1]@);
                        assert(parts.deep_view()[3] == parts@[3]@);
                    }
                    str_eq(parts[1].as_str(), "auto") && str_eq(parts[3].as_str(), "auto")
                } else {
                    false
                }
            },
            None => false,
        }
    }
}

} // verus!
