//! Keybinding resolution: parsing chord strings such as `C-S-M-<tab>` into
//! a modifier mask and a key, scanning the server's keyboard mapping for
//! the keycodes of a keysym, classifying command strings, and matching an
//! incoming key press against the bound table.

use vstd::prelude::*;

verus! {

/// The Shift modifier bit of the protocol's key-button mask.
pub const MASK_SHIFT: u16 = 1;

/// The Lock modifier bit (grabs are duplicated with it so they tolerate an
/// engaged lock).
pub const MASK_LOCK: u16 = 2;

/// The Control modifier bit.
pub const MASK_CONTROL: u16 = 4;

/// The Mod1 (Alt) modifier bit.
pub const MASK_MOD1: u16 = 8;

/// The Mod2 (NumLock) modifier bit (matches tolerate it being engaged).
pub const MASK_MOD2: u16 = 16;

/// The Mod4 (Super) modifier bit.
pub const MASK_MOD4: u16 = 64;

/// The keysym for the Tab key.
pub const KEYSYM_TAB: u32 = 0xff09;

/// The keysym for the Return key.
pub const KEYSYM_RETURN: u32 = 0xff0d;

/// The keysym for the Escape key.
pub const KEYSYM_ESCAPE: u32 = 0xff1b;

/// The key part of a parsed chord: a keysym known outright (from a
/// bracketed name) or a keysym name still to be resolved against the
/// keysym database, already lowered to lower case.
#[derive(Debug, Clone, PartialEq, Eq)]
pub enum KeyToken {
    Keysym(u32),
    Named(Vec<u8>),
}

/// The spec view of a key token.
pub enum SpecToken {
    Keysym(u32),
    Named(Seq<u8>),
}

/// The spec view of a key token value.
pub open spec fn token_view(t: KeyToken) -> SpecToken {
    match t {
        KeyToken::Keysym(k) => SpecToken::Keysym(k),
        KeyToken::Named(v) => SpecToken::Named(v@),
    }
}

/// Why a chord string is rejected.
#[derive(Debug, Clone, Copy, PartialEq, Eq, Structural)]
pub enum ChordError {
    /// The chord holds a space: key sequences are not supported.
    KeySequence,
    /// A modifier segment is not one of `C`, `S`, `M`, `A`.
    UnknownModifier,
    /// The key is bracketed on one side only.
    MixedBracket,
    /// The chord ends in a modifier letter, so it names no key.
    NoKey,
}

/// An ASCII letter lowered to lower case; other bytes unchanged.
pub open spec fn lower_byte(b: u8) -> u8 {
    if 65 <= b <= 90 {
        (b + 32) as u8
    } else {
        b
    }
}

/// A byte string lowered to lower case, byte by byte.
pub open spec fn lower_bytes(s: Seq<u8>) -> Seq<u8> {
    s.map_values(|b: u8| lower_byte(b))
}

/// The index of the first occurrence of `b` at or after `i`, or the length
/// when there is none.
pub open spec fn index_of_byte(s: Seq<u8>, b: u8, i: int) -> int
    decreases s.len() - i,
{
    if i < 0 || i >= s.len() {
        s.len() as int
    } else if s[i] == b {
        i
    } else {
        index_of_byte(s, b, i + 1)
    }
}

/// The segments of `s` separated by `sep`; an empty string yields one
/// empty segment.
pub open spec fn split_on(s: Seq<u8>, sep: u8) -> Seq<Seq<u8>>
    decreases s.len(),
{
    let k = index_of_byte(s, sep, 0);
    if !(0 <= k < s.len()) {
        seq![s]
    } else {
        seq![s.subrange(0, k)] + split_on(s.subrange(k + 1, s.len() as int), sep)
    }
}

/// `s` with leading and trailing ASCII spaces removed.
pub open spec fn trim_spaces(s: Seq<u8>) -> Seq<u8>
    decreases s.len(),
{
    if s.len() == 0 {
        s
    } else if s[0] == 32 {
        trim_spaces(s.subrange(1, s.len() as int))
    } else if s[s.len() - 1] == 32 {
        trim_spaces(s.subrange(0, s.len() - 1))
    } else {
        s
    }
}

/// The modifier bit a single-letter segment selects, if any.
pub open spec fn modifier_bits(seg: Seq<u8>) -> Option<u16> {
    if seg == seq![67u8] {
        Some(MASK_CONTROL)
    } else if seg == seq![83u8] {
        Some(MASK_SHIFT)
    } else if seg == seq![77u8] {
        Some(MASK_MOD4)
    } else if seg == seq![65u8] {
        Some(MASK_MOD1)
    } else {
        None
    }
}

/// The aggregate mask of the modifier segments before position `i`, or
/// nothing if one of them is unknown.
pub open spec fn mods_of(segs: Seq<Seq<u8>>, i: int) -> Option<u16>
    decreases i,
{
    if i <= 0 {
        Some(0)
    } else {
        match mods_of(segs, i - 1) {
            None => None,
            Some(m) => match modifier_bits(segs[i - 1]) {
                None => None,
                Some(b) => Some(m | b),
            },
        }
    }
}

/// The key token a key segment resolves to. A bracketed name selects a
/// fixed keysym: `<tab>` the Tab keysym, `<enter>` Return, any other
/// bracketed token Escape. A name bracketed on one side only is rejected.
/// Anything else is a keysym name, matched case-insensitively.
pub open spec fn key_token_of(seg: Seq<u8>) -> Result<SpecToken, ChordError> {
    let opens = seg.len() > 0 && seg[0] == 60;
    let closes = seg.len() > 0 && seg[seg.len() - 1] == 62;
    if opens && closes {
        if lower_bytes(seg) == seq![60u8, 116u8, 97u8, 98u8, 62u8] {
            Ok(SpecToken::Keysym(KEYSYM_TAB))
        } else if lower_bytes(seg) == seq![60u8, 101u8, 110u8, 116u8, 101u8, 114u8, 62u8] {
            Ok(SpecToken::Keysym(KEYSYM_RETURN))
        } else {
            Ok(SpecToken::Keysym(KEYSYM_ESCAPE))
        }
    } else if opens || closes {
        Err(ChordError::MixedBracket)
    } else {
        Ok(SpecToken::Named(lower_bytes(seg)))
    }
}

/// The parse of a whole chord string: trim it, reject embedded spaces,
/// split on dashes, fold the leading segments into a modifier mask, and
/// resolve the final segment as the key — unless it is itself a modifier
/// letter, in which case the chord names no key.
pub open spec fn parse_chord_spec(s: Seq<u8>) -> Result<(u16, SpecToken), ChordError> {
    let t = trim_spaces(s);
    if t.contains(32u8) {
        Err(ChordError::KeySequence)
    } else {
        let segs = split_on(t, 45);
        let last = segs[segs.len() - 1];
        match mods_of(segs, segs.len() - 1) {
            None => Err(ChordError::UnknownModifier),
            Some(m) => if modifier_bits(last) is Some {
                Err(ChordError::NoKey)
            } else {
                match key_token_of(last) {
                    Ok(tok) => Ok((m, tok)),
                    Err(e) => Err(e),
                }
            },
        }
    }
}

/// One keybinding after resolution: the keycodes bound, the modifier mask,
/// and the configured command, group and description strings.
#[derive(Debug, Clone)]
pub struct KeyBinding {
    pub keycodes: Vec<u8>,
    pub modifiers: u16,
    pub command: Vec<u8>,
    pub group: String,
    pub description: String,
}

/// The resolved keybinding table, in configuration order.
#[derive(Debug)]
pub struct Keybindings {
    pub keyseqs: Vec<KeyBinding>,
}

impl Keybindings {
    /// An empty table.
    pub fn new() -> (k: Keybindings)
        ensures
            k.keyseqs@.len() == 0,
    {
        Keybindings { keyseqs: Vec::new() }
    }
}

/// Whether a binding matches a key press: its keycode list holds the
/// press's keycode and the press's modifier state equals the binding's
/// mask exactly or with Mod2 added.
pub open spec fn binding_matches(b: KeyBinding, detail: u8, state: u16) -> bool {
    b.keycodes@.contains(detail) && (state == b.modifiers || state == b.modifiers | MASK_MOD2)
}

/// The position of the first binding that matches the key press.
pub open spec fn first_binding_from(bs: Seq<KeyBinding>, detail: u8, state: u16, i: int) -> int
    decreases bs.len() - i,
{
    if i < 0 || i >= bs.len() {
        bs.len() as int
    } else if binding_matches(bs[i], detail, state) {
        i
    } else {
        first_binding_from(bs, detail, state, i + 1)
    }
}

/// The first-match scan stays within the table bounds.
pub proof fn lemma_first_binding_bounds(bs: Seq<KeyBinding>, detail: u8, state: u16, i: int)
    requires
        0 <= i <= bs.len(),
    ensures
        i <= first_binding_from(bs, detail, state, i) <= bs.len(),
    decreases bs.len() - i,
{
    if i < bs.len() && !binding_matches(bs[i], detail, state) {
        lemma_first_binding_bounds(bs, detail, state, i + 1);
    }
}

/// Finds the first binding matching a key press.
pub fn match_key_press(bindings: &Keybindings, detail: u8, state: u16) -> (r: Option<usize>)
    ensures
        ({
            let k = first_binding_from(bindings.keyseqs@, detail, state, 0);
            if k < bindings.keyseqs@.len() {
                r == Some(k as usize)
            } else {
                r is None
            }
        }),
{
    let n = bindings.keyseqs.len();
    let mut i: usize = 0;
    while i < n
        invariant
            i <= n,
            n == bindings.keyseqs@.len(),
            first_binding_from(bindings.keyseqs@, detail, state, 0) == first_binding_from(
                bindings.keyseqs@,
                detail,
                state,
                i as int,
            ),
        decreases n - i,
    {
        let b = &bindings.keyseqs[i];
        let mut hit = false;
        let m = b.keycodes.len();
        let mut j: usize = 0;
        while j < m
            invariant
                j <= m,
                m == b.keycodes@.len(),
                b == bindings.keyseqs@[i as int],
                hit == exists|l: int| 0 <= l < j && b.keycodes@[l] == detail,
            decreases m - j,
        {
            if b.keycodes[j] == detail {
                hit = true;
            }
            j += 1;
        }
        if hit && (state == b.modifiers || state == b.modifiers | MASK_MOD2) {
            proof {
                assert(b.keycodes@.contains(detail));
                assert(binding_matches(bindings.keyseqs@[i as int], detail, state));
            }
            return Some(i);
        }
        proof {
            assert(!b.keycodes@.contains(detail) || !(state == b.modifiers || state
                == b.modifiers | MASK_MOD2));
        }
        i += 1;
    }
    None
}

/// Whether a keycode row of the keyboard mapping holds the keysym in some
/// column.
pub open spec fn row_matches(syms: Seq<u32>, per: int, row: int, sym: u32) -> bool {
    exists|c: int| 0 <= c < per && #[trigger] syms[row * per + c] == sym
}

/// Scans the server's keyboard mapping — `per` keysyms per keycode, one
/// row per keycode starting at `min_keycode` — and returns every keycode
/// mapped to `sym` in some column, in ascending order without duplicates.
pub fn keycodes_of_keysym(min_keycode: u8, per: usize, syms: &[u32], sym: u32) -> (r: Vec<u8>)
    requires
        per >= 1,
        syms@.len() as int / per as int + min_keycode as int <= 256,
    ensures
        ({
            let rows = syms@.len() as int / per as int;
            &&& (forall|a: int, b: int|
                #![trigger r@[a], r@[b]]
                0 <= a < b < r@.len() ==> r@[a] < r@[b])
            &&& (forall|kc: u8| #[trigger]
                r@.contains(kc) <==> (min_keycode <= kc && (kc as int) < min_keycode as int + rows
                    && row_matches(syms@, per as int, kc as int - min_keycode as int, sym)))
        }),
{
    let total = syms.len();
    let rows = total / per;
    let mut r: Vec<u8> = Vec::new();
    let mut i: usize = 0;
    proof {
        vstd::arithmetic::div_mod::lemma_fundamental_div_mod(syms@.len() as int, per as int);
        vstd::arithmetic::div_mod::lemma_mod_bound(syms@.len() as int, per as int);
    }
    while i < rows
        invariant
            per >= 1,
            i <= rows,
            total == syms@.len(),
            rows == syms@.len() as int / per as int,
            rows as int * per as int <= syms@.len(),
            min_keycode as int + rows <= 256,
            forall|a: int, b: int|
                #![trigger r@[a], r@[b]]
                0 <= a < b < r@.len() ==> r@[a] < r@[b],
            forall|a: int| 0 <= a < r@.len() ==> r@[a] < min_keycode as int + i,
            forall|kc: u8| #[trigger]
                r@.contains(kc) <==> (min_keycode <= kc && (kc as int) < min_keycode as int + i
                    && row_matches(syms@, per as int, kc as int - min_keycode as int, sym)),
        decreases rows - i,
    {
        proof {
            vstd::arithmetic::mul::lemma_mul_inequality(i as int + 1, rows as int, per as int);
            assert((i as int + 1) * per as int == i as int * per as int + per as int)
                by (nonlinear_arith);
        }
        let mut hit = false;
        let mut c: usize = 0;
        while c < per
            invariant
                per >= 1,
                i < rows,
                total == syms@.len(),
                rows == syms@.len() as int / per as int,
                (i as int + 1) * per as int <= syms@.len(),
                (i as int + 1) * per as int == i as int * per as int + per as int,
                c <= per,
                hit == exists|l: int|
                    0 <= l < c && #[trigger] syms@[i as int * per as int + l] == sym,
            decreases per - c,
        {
            proof {
                assert((i as int) * (per as int) <= syms@.len());
                assert((i as int) * (per as int) + (c as int) < syms@.len());
            }
            let idx = i * per + c;
            if syms[idx] == sym {
                hit = true;
            }
            c += 1;
        }
        let ghost r0 = r@;
        if hit {
            let kc = min_keycode as usize + i;
            r.push(kc as u8);
            proof {
                assert(row_matches(syms@, per as int, i as int, sym));
                assert forall|kc: u8| #[trigger]
                    r@.contains(kc) <==> (min_keycode <= kc && (kc as int) < min_keycode as int + i
                        + 1 && row_matches(
                    syms@,
                    per as int,
                    kc as int - min_keycode as int,
                    sym,
                )) by {
                    if r@.contains(kc) {
                        let l = choose|l: int| 0 <= l < r@.len() && r@[l] == kc;
                        if l < r0.len() {
                            assert(r0.contains(kc));
                        }
                    }
                    if min_keycode <= kc && (kc as int) < min_keycode as int + i + 1
                        && row_matches(syms@, per as int, kc as int - min_keycode as int, sym) {
                        if (kc as int) < min_keycode as int + i {
                            assert(r0.contains(kc));
                            let l = choose|l: int| 0 <= l < r0.len() && r0[l] == kc;
                            assert(r@[l] == kc);
                        } else {
                            assert(r@[r@.len() - 1] == kc);
                        }
                    }
                }
            }
        } else {
            proof {
                assert forall|kc: u8| #[trigger]
                    r@.contains(kc) <==> (min_keycode <= kc && (kc as int) < min_keycode as int + i
                        + 1 && row_matches(
                    syms@,
                    per as int,
                    kc as int - min_keycode as int,
                    sym,
                )) by {
                    if min_keycode <= kc && (kc as int) < min_keycode as int + i + 1
                        && row_matches(syms@, per as int, kc as int - min_keycode as int, sym) {
                        assert(kc as int != min_keycode as int + i);
                    }
                }
            }
        }
        i += 1;
    }
    r
}


/// Powers of ten.
pub open spec fn pow10(k: int) -> int
    decreases k,
{
    if k <= 0 {
        1
    } else {
        10 * pow10(k - 1)
    }
}

/// A decimal digit sequence's value.
pub open spec fn dec_value(s: Seq<u8>) -> int
    decreases s.len(),
{
    if s.len() == 0 {
        0
    } else {
        dec_value(s.drop_last()) * 10 + (s.last() - 48)
    }
}

/// Whether every byte is an ASCII digit.
pub open spec fn is_digits(s: Seq<u8>) -> bool {
    forall|i: int| 0 <= i < s.len() ==> 48 <= #[trigger] s[i] <= 57
}

/// The bytes of the `quit` command name.
pub open spec fn quit_bytes() -> Seq<u8> {
    seq![113u8, 117u8, 105u8, 116u8]
}

/// The bytes of the `change_layout` command name.
pub open spec fn change_layout_bytes() -> Seq<u8> {
    seq![99u8, 104u8, 97u8, 110u8, 103u8, 101u8, 95u8, 108u8, 97u8, 121u8, 111u8, 117u8, 116u8]
}

/// The bytes of the `cycle_window_focus_forward` command name.
pub open spec fn cycle_window_focus_forward_bytes() -> Seq<u8> {
    seq![99u8, 121u8, 99u8, 108u8, 101u8, 95u8, 119u8, 105u8, 110u8, 100u8, 111u8, 119u8, 95u8, 102u8, 111u8, 99u8, 117u8, 115u8, 95u8, 102u8, 111u8, 114u8, 119u8, 97u8, 114u8, 100u8]
}

/// The bytes of the `cycle_window_focus_backward` command name.
pub open spec fn cycle_window_focus_backward_bytes() -> Seq<u8> {
    seq![99u8, 121u8, 99u8, 108u8, 101u8, 95u8, 119u8, 105u8, 110u8, 100u8, 111u8, 119u8, 95u8, 102u8, 111u8, 99u8, 117u8, 115u8, 95u8, 98u8, 97u8, 99u8, 107u8, 119u8, 97u8, 114u8, 100u8]
}

/// The bytes of the `cycle_window_forward` command name.
pub open spec fn cycle_window_forward_bytes() -> Seq<u8> {
    seq![99u8, 121u8, 99u8, 108u8, 101u8, 95u8, 119u8, 105u8, 110u8, 100u8, 111u8, 119u8, 95u8, 102u8, 111u8, 114u8, 119u8, 97u8, 114u8, 100u8]
}

/// The bytes of the `cycle_window_backward` command name.
pub open spec fn cycle_window_backward_bytes() -> Seq<u8> {
    seq![99u8, 121u8, 99u8, 108u8, 101u8, 95u8, 119u8, 105u8, 110u8, 100u8, 111u8, 119u8, 95u8, 98u8, 97u8, 99u8, 107u8, 119u8, 97u8, 114u8, 100u8]
}

/// The bytes of the `goto_tag` command name.
pub open spec fn goto_tag_bytes() -> Seq<u8> {
    seq![103u8, 111u8, 116u8, 111u8, 95u8, 116u8, 97u8, 103u8]
}

/// The command a configured command string selects. The string is split on
/// commas; the first segment names the command. A `goto_tag` whose first
/// argument is one to nine decimal digits carries that tag number; one
/// without such an argument is invalid and ignored. Any unknown name is
/// spawned as an external process.
pub open spec fn parse_command_spec(s: Seq<u8>) -> Command {
    let segs = split_on(s, 44);
    let name = segs[0];
    if name == quit_bytes() {
        Command::Quit
    } else if name == change_layout_bytes() {
        Command::ChangeLayout
    } else if name == cycle_window_focus_forward_bytes() {
        Command::CycleWindowFocusForward
    } else if name == cycle_window_focus_backward_bytes() {
        Command::CycleWindowFocusBackward
    } else if name == cycle_window_forward_bytes() {
        Command::CycleWindowForward
    } else if name == cycle_window_backward_bytes() {
        Command::CycleWindowBackward
    } else if name == goto_tag_bytes() {
        if segs.len() >= 2 && 1 <= segs[1].len() <= 9 && is_digits(segs[1]) {
            Command::GotoTag(dec_value(segs[1]) as usize)
        } else {
            Command::Invalid
        }
    } else {
        Command::Spawn
    }
}

/// A dispatched command.
#[derive(Debug, Clone, Copy, PartialEq, Eq, Structural)]
pub enum Command {
    /// Exit the manager.
    Quit,
    /// Advance the active workspace to the next enabled layout.
    ChangeLayout,
    /// Move the focus one slot toward the master.
    CycleWindowFocusForward,
    /// Move the focus one slot toward the back.
    CycleWindowFocusBackward,
    /// Move the focused window one slot toward the master.
    CycleWindowForward,
    /// Move the focused window one slot toward the back.
    CycleWindowBackward,
    /// Switch to the (one-indexed) workspace tag.
    GotoTag(usize),
    /// Spawn the command string as an external process.
    Spawn,
    /// A malformed command, ignored with a warning.
    Invalid,
}

/// Builds the `quit` command name.
fn quit_vec() -> (v: Vec<u8>)
    ensures
        v@ == quit_bytes(),
{
    let mut v: Vec<u8> = Vec::new();
    v.push(113);
    v.push(117);
    v.push(105);
    v.push(116);
    proof {
        assert(v@ =~= quit_bytes());
    }
    v
}

/// Builds the `change_layout` command name.
fn change_layout_vec() -> (v: Vec<u8>)
    ensures
        v@ == change_layout_bytes(),
{
    let mut v: Vec<u8> = Vec::new();
    v.push(99);
    v.push(104);
    v.push(97);
    v.push(110);
    v.push(103);
    v.push(101);
    v.push(95);
    v.push(108);
    v.push(97);
    v.push(121);
    v.push(111);
    v.push(117);
    v.push(116);
    proof {
        assert(v@ =~= change_layout_bytes());
    }
    v
}

/// Builds the `cycle_window_focus_forward` command name.
fn cycle_window_focus_forward_vec() -> (v: Vec<u8>)
    ensures
        v@ == cycle_window_focus_forward_bytes(),
{
    let mut v: Vec<u8> = Vec::new();
    v.push(99);
    v.push(121);
    v.push(99);
    v.push(108);
    v.push(101);
    v.push(95);
    v.push(119);
    v.push(105);
    v.push(110);
    v.push(100);
    v.push(111);
    v.push(119);
    v.push(95);
    v.push(102);
    v.push(111);
    v.push(99);
    v.push(117);
    v.push(115);
    v.push(95);
    v.push(102);
    v.push(111);
    v.push(114);
    v.push(119);
    v.push(97);
    v.push(114);
    v.push(100);
    proof {
        assert(v@ =~= cycle_window_focus_forward_bytes());
    }
    v
}

/// Builds the `cycle_window_focus_backward` command name.
fn cycle_window_focus_backward_vec() -> (v: Vec<u8>)
    ensures
        v@ == cycle_window_focus_backward_bytes(),
{
    let mut v: Vec<u8> = Vec::new();
    v.push(99);
    v.push(121);
    v.push(99);
    v.push(108);
    v.push(101);
    v.push(95);
    v.push(119);
    v.push(105);
    v.push(110);
    v.push(100);
    v.push(111);
    v.push(119);
    v.push(95);
    v.push(102);
    v.push(111);
    v.push(99);
    v.push(117);
    v.push(115);
    v.push(95);
    v.push(98);
    v.push(97);
    v.push(99);
    v.push(107);
    v.push(119);
    v.push(97);
    v.push(114);
    v.push(100);
    proof {
        assert(v@ =~= cycle_window_focus_backward_bytes());
    }
    v
}

/// Builds the `cycle_window_forward` command name.
fn cycle_window_forward_vec() -> (v: Vec<u8>)
    ensures
        v@ == cycle_window_forward_bytes(),
{
    let mut v: Vec<u8> = Vec::new();
    v.push(99);
    v.push(121);
    v.push(99);
    v.push(108);
    v.push(101);
    v.push(95);
    v.push(119);
    v.push(105);
    v.push(110);
    v.push(100);
    v.push(111);
    v.push(119);
    v.push(95);
    v.push(102);
    v.push(111);
    v.push(114);
    v.push(119);
    v.push(97);
    v.push(114);
    v.push(100);
    proof {
        assert(v@ =~= cycle_window_forward_bytes());
    }
    v
}

/// Builds the `cycle_window_backward` command name.
fn cycle_window_backward_vec() -> (v: Vec<u8>)
    ensures
        v@ == cycle_window_backward_bytes(),
{
    let mut v: Vec<u8> = Vec::new();
    v.push(99);
    v.push(121);
    v.push(99);
    v.push(108);
    v.push(101);
    v.push(95);
    v.push(119);
    v.push(105);
    v.push(110);
    v.push(100);
    v.push(111);
    v.push(119);
    v.push(95);
    v.push(98);
    v.push(97);
    v.push(99);
    v.push(107);
    v.push(119);
    v.push(97);
    v.push(114);
    v.push(100);
    proof {
        assert(v@ =~= cycle_window_backward_bytes());
    }
    v
}

/// Builds the `goto_tag` command name.
fn goto_tag_vec() -> (v: Vec<u8>)
    ensures
        v@ == goto_tag_bytes(),
{
    let mut v: Vec<u8> = Vec::new();
    v.push(103);
    v.push(111);
    v.push(116);
    v.push(111);
    v.push(95);
    v.push(116);
    v.push(97);
    v.push(103);
    proof {
        assert(v@ =~= goto_tag_bytes());
    }
    v
}

/// Compares two byte strings.
fn vec_eq(a: &Vec<u8>, b: &Vec<u8>) -> (r: bool)
    ensures
        r == (a@ == b@),
{
    if a.len() != b.len() {
        return false;
    }
    let n = a.len();
    let mut i: usize = 0;
    while i < n
        invariant
            i <= n,
            n == a@.len(),
            n == b@.len(),
            forall|j: int| 0 <= j < i ==> a@[j] == b@[j],
        decreases n - i,
    {
        if a[i] != b[i] {
            return false;
        }
        i += 1;
    }
    proof {
        assert(a@ =~= b@);
    }
    true
}

/// Finds the first occurrence of `b` at or after `start`.
fn find_byte(v: &Vec<u8>, b: u8, start: usize) -> (r: usize)
    requires
        start <= v@.len(),
    ensures
        r == index_of_byte(v@, b, start as int),
        start <= r <= v@.len(),
        r < v@.len() ==> v@[r as int] == b,
        forall|j: int| start <= j < r ==> v@[j] != b,
    decreases v@.len() - start,
{
    if start >= v.len() {
        start
    } else if v[start] == b {
        start
    } else {
        find_byte(v, b, start + 1)
    }
}

/// Copies the bytes of `v` between `lo` and `hi`.
fn subrange_vec(v: &Vec<u8>, lo: usize, hi: usize) -> (r: Vec<u8>)
    requires
        lo <= hi,
        hi <= v@.len(),
    ensures
        r@ == v@.subrange(lo as int, hi as int),
{
    let mut r: Vec<u8> = Vec::new();
    let mut i: usize = lo;
    while i < hi
        invariant
            lo <= i <= hi,
            hi <= v@.len(),
            r@ == v@.subrange(lo as int, i as int),
        decreases hi - i,
    {
        r.push(v[i]);
        proof {
            assert(r@ =~= v@.subrange(lo as int, i as int + 1));
        }
        i += 1;
    }
    r
}

/// Lowers every ASCII letter of `v` to lower case.
fn lower_vec(v: &Vec<u8>) -> (r: Vec<u8>)
    ensures
        r@ == lower_bytes(v@),
{
    let mut r: Vec<u8> = Vec::new();
    let n = v.len();
    let mut i: usize = 0;
    while i < n
        invariant
            i <= n,
            n == v@.len(),
            r@.len() == i,
            forall|j: int| 0 <= j < i ==> r@[j] == lower_byte(v@[j]),
        decreases n - i,
    {
        let b = v[i];
        if 65 <= b && b <= 90 {
            r.push(b + 32);
        } else {
            r.push(b);
        }
        i += 1;
    }
    proof {
        assert(r@ =~= lower_bytes(v@));
    }
    r
}

/// A byte occurs at or after `i` exactly when the first-occurrence scan
/// stops before the end.
proof fn lemma_index_of_byte_finds(s: Seq<u8>, b: u8, i: int)
    requires
        0 <= i <= s.len(),
    ensures
        (exists|j: int| i <= j < s.len() && s[j] == b) <==> index_of_byte(s, b, i) < s.len(),
    decreases s.len() - i,
{
    if i < s.len() && s[i] != b {
        lemma_index_of_byte_finds(s, b, i + 1);
    }
}

/// Powers of ten grow with the exponent.
proof fn lemma_pow10_le(a: int, b: int)
    requires
        a <= b,
    ensures
        pow10(a) <= pow10(b),
        pow10(a) >= 1,
    decreases b - a,
{
    if a < b {
        lemma_pow10_le(a, b - 1);
    } else {
        lemma_pow10_pos(a);
    }
}

/// Powers of ten are positive.
proof fn lemma_pow10_pos(a: int)
    ensures
        pow10(a) >= 1,
    decreases a,
{
    if a > 0 {
        lemma_pow10_pos(a - 1);
    }
}

/// Once a modifier segment fails to resolve, the whole prefix does.
proof fn lemma_mods_of_none(segs: Seq<Seq<u8>>, i: int, k: int)
    requires
        0 <= i < k,
        mods_of(segs, i + 1) is None,
    ensures
        mods_of(segs, k) is None,
    decreases k,
{
    if i + 1 < k {
        lemma_mods_of_none(segs, i, k - 1);
    }
}

/// Splitting yields at least one segment.
proof fn lemma_split_on_nonempty(s: Seq<u8>, sep: u8)
    ensures
        split_on(s, sep).len() >= 1,
    decreases s.len(),
{
    let k = index_of_byte(s, sep, 0);
    if 0 <= k < s.len() {
        lemma_split_on_nonempty(s.subrange(k + 1, s.len() as int), sep);
    }
}

/// Splits `v` on the separator.
fn split_vec(v: &Vec<u8>, sep: u8) -> (r: Vec<Vec<u8>>)
    requires
        sep != 0 || true,
    ensures
        r@.map_values(|x: Vec<u8>| x@) == split_on(v@, sep),
        r@.len() >= 1,
    decreases v@.len(),
{
    let k = find_byte(v, sep, 0);
    if k >= v.len() {
        let whole = subrange_vec(v, 0, v.len());
        let mut r: Vec<Vec<u8>> = Vec::new();
        r.push(whole);
        proof {
            assert(v@.subrange(0, v@.len() as int) =~= v@);
            assert(r@.map_values(|x: Vec<u8>| x@) =~= split_on(v@, sep));
        }
        r
    } else {
        let head = subrange_vec(v, 0, k);
        let tail = subrange_vec(v, k + 1, v.len());
        let mut r = split_vec(&tail, sep);
        r.insert(0, head);
        proof {
            assert(r@.map_values(|x: Vec<u8>| x@) =~= split_on(v@, sep));
        }
        r
    }
}

/// Classifies a configured command string.
pub fn parse_command(cmd: &Vec<u8>) -> (r: Command)
    ensures
        r == parse_command_spec(cmd@),
{
    proof {
        lemma_split_on_nonempty(cmd@, 44);
    }
    let segs = split_vec(cmd, 44);
    let name = &segs[0];
    proof {
        assert(name@ == split_on(cmd@, 44)[0]);
    }
    if vec_eq(name, &quit_vec()) {
        Command::Quit
    } else if vec_eq(name, &change_layout_vec()) {
        Command::ChangeLayout
    } else if vec_eq(name, &cycle_window_focus_forward_vec()) {
        Command::CycleWindowFocusForward
    } else if vec_eq(name, &cycle_window_focus_backward_vec()) {
        Command::CycleWindowFocusBackward
    } else if vec_eq(name, &cycle_window_forward_vec()) {
        Command::CycleWindowForward
    } else if vec_eq(name, &cycle_window_backward_vec()) {
        Command::CycleWindowBackward
    } else if vec_eq(name, &goto_tag_vec()) {
        if segs.len() < 2 {
            return Command::Invalid;
        }
        let arg = &segs[1];
        proof {
            assert(arg@ == split_on(cmd@, 44)[1]);
        }
        let m = arg.len();
        if m < 1 || m > 9 {
            return Command::Invalid;
        }
        let mut value: usize = 0;
        let mut i: usize = 0;
        proof {
            assert(pow10(0) == 1);
            assert(pow10(1) == 10);
            assert(pow10(2) == 100);
            assert(pow10(3) == 1000);
            assert(pow10(4) == 10000);
            assert(pow10(5) == 100000);
            assert(pow10(6) == 1000000);
            assert(pow10(7) == 10000000);
            assert(pow10(8) == 100000000);
            assert(pow10(9) == 1000000000);
        }
        while i < m
            invariant
                i <= m,
                m == arg@.len(),
                m <= 9,
                m >= 1,
                split_on(cmd@, 44).len() >= 2,
                split_on(cmd@, 44)[0] == goto_tag_bytes(),
                arg@ == split_on(cmd@, 44)[1],
                is_digits(arg@.subrange(0, i as int)),
                value == dec_value(arg@.subrange(0, i as int)),
                value < pow10(i as int),
                pow10(8) == 100000000,
                pow10(9) == 1000000000,
                forall|k: int| #[trigger] pow10(k) == (if k <= 0 { 1int } else { 10 * pow10(k - 1) }),
            decreases m - i,
        {
            let b = arg[i];
            if b < 48 || b > 57 {
                proof {
                    assert(!(48 <= arg@[i as int] <= 57));
                    assert(!is_digits(arg@));
                }
                return Command::Invalid;
            }
            proof {
                assert(arg@.subrange(0, i as int + 1).drop_last() =~= arg@.subrange(0, i as int));
                assert(arg@.subrange(0, i as int + 1).last() == arg@[i as int]);
                assert(pow10(i as int) <= pow10(8)) by {
                    lemma_pow10_le(i as int, 8);
                }
                assert(pow10(i as int + 1) == 10 * pow10(i as int));
            }
            value = value * 10 + ((b - 48) as usize);
            i += 1;
        }
        proof {
            assert(arg@.subrange(0, m as int) =~= arg@);
        }
        Command::GotoTag(value)
    } else {
        Command::Spawn
    }
}

/// Parses a chord string into its modifier mask and key token.
pub fn parse_chord(chord: &Vec<u8>) -> (r: Result<(u16, KeyToken), ChordError>)
    ensures
        ({
            match (r, parse_chord_spec(chord@)) {
                (Ok((m, t)), Ok(p)) => m == p.0 && token_view(t) == p.1,
                (Err(e), Err(es)) => e == es,
                _ => false,
            }
        }),
{
    let t = trim_vec(chord);
    let sp = find_byte(&t, 32, 0);
    if sp < t.len() {
        proof {
            lemma_index_of_byte_finds(t@, 32, 0);
        }
        return Err(ChordError::KeySequence);
    }
    proof {
        lemma_index_of_byte_finds(t@, 32, 0);
        assert(!t@.contains(32u8));
        lemma_split_on_nonempty(t@, 45);
    }
    let segs = split_vec(&t, 45);
    let ghost sview = split_on(t@, 45);
    let n = segs.len();
    let mut m: u16 = 0;
    let mut i: usize = 0;
    while i < n - 1
        invariant
            i < n,
            n == segs@.len(),
            n == sview.len(),
            segs@.map_values(|x: Vec<u8>| x@) == sview,
            mods_of(sview, i as int) == Some(m),
            t@ == trim_spaces(chord@),
            !t@.contains(32u8),
            sview == split_on(t@, 45),
        decreases n - 1 - i,
    {
        let seg = &segs[i];
        proof {
            assert(seg@ == sview[i as int]);
        }
        let bit: u16;
        if seg.len() == 1 && seg[0] == 67 {
            bit = MASK_CONTROL;
            proof {
                assert(seg@ =~= seq![67u8]);
            }
        } else if seg.len() == 1 && seg[0] == 83 {
            bit = MASK_SHIFT;
            proof {
                assert(seg@ =~= seq![83u8]);
            }
        } else if seg.len() == 1 && seg[0] == 77 {
            bit = MASK_MOD4;
            proof {
                assert(seg@ =~= seq![77u8]);
            }
        } else if seg.len() == 1 && seg[0] == 65 {
            bit = MASK_MOD1;
            proof {
                assert(seg@ =~= seq![65u8]);
            }
        } else {
            proof {
                if seg@ == seq![67u8] || seg@ == seq![83u8] || seg@ == seq![77u8] || seg@
                    == seq![65u8] {
                    assert(seg@.len() == 1);
                }
                assert(modifier_bits(sview[i as int]) is None);
                assert(mods_of(sview, i as int + 1) is None);
                if i as int + 1 < n - 1 {
                    lemma_mods_of_none(sview, i as int, n as int - 1);
                }
            }
            return Err(ChordError::UnknownModifier);
        }
        m = m | bit;
        i += 1;
    }
    let last = &segs[n - 1];
    proof {
        assert(last@ == sview[n - 1]);
    }
    let is_modifier = last.len() == 1 && (last[0] == 67 || last[0] == 83 || last[0] == 77
        || last[0] == 65);
    if is_modifier {
        proof {
            if last@[0] == 67 {
                assert(last@ =~= seq![67u8]);
            } else if last@[0] == 83 {
                assert(last@ =~= seq![83u8]);
            } else if last@[0] == 77 {
                assert(last@ =~= seq![77u8]);
            } else {
                assert(last@ =~= seq![65u8]);
            }
        }
        return Err(ChordError::NoKey);
    }
    proof {
        if last@ == seq![67u8] || last@ == seq![83u8] || last@ == seq![77u8] || last@
            == seq![65u8] {
            assert(last@.len() == 1);
        }
    }
    let opens = last.len() > 0 && last[0] == 60;
    let closes = last.len() > 0 && last[last.len() - 1] == 62;
    if opens && closes {
        let low = lower_vec(last);
        let is_tab = low.len() == 5 && low[0] == 60 && low[1] == 116 && low[2] == 97 && low[3]
            == 98 && low[4] == 62;
        let is_enter = low.len() == 7 && low[0] == 60 && low[1] == 101 && low[2] == 110 && low[3]
            == 116 && low[4] == 101 && low[5] == 114 && low[6] == 62;
        proof {
            if is_tab {
                assert(low@ =~= seq![60u8, 116u8, 97u8, 98u8, 62u8]);
            }
            if is_enter {
                assert(low@ =~= seq![60u8, 101u8, 110u8, 116u8, 101u8, 114u8, 62u8]);
            }
        }
        if is_tab {
            Ok((m, KeyToken::Keysym(KEYSYM_TAB)))
        } else if is_enter {
            Ok((m, KeyToken::Keysym(KEYSYM_RETURN)))
        } else {
            Ok((m, KeyToken::Keysym(KEYSYM_ESCAPE)))
        }
    } else if opens || closes {
        Err(ChordError::MixedBracket)
    } else {
        Ok((m, KeyToken::Named(lower_vec(last))))
    }
}

/// Removes the leading and trailing ASCII spaces.
fn trim_vec(v: &Vec<u8>) -> (r: Vec<u8>)
    ensures
        r@ == trim_spaces(v@),
{
    let mut lo: usize = 0;
    let n = v.len();
    while lo < n && v[lo] == 32
        invariant
            lo <= n,
            n == v@.len(),
            forall|j: int| 0 <= j < lo ==> v@[j] == 32,
        decreases n - lo,
    {
        lo += 1;
    }
    let mut hi: usize = n;
    while hi > lo && v[hi - 1] == 32
        invariant
            lo <= hi <= n,
            n == v@.len(),
            forall|j: int| 0 <= j < lo ==> v@[j] == 32,
            forall|j: int| hi <= j < n ==> v@[j] == 32,
        decreases hi,
    {
        hi -= 1;
    }
    let r = subrange_vec(v, lo, hi);
    proof {
        lemma_trim_characterization(v@, lo as int, hi as int);
    }
    r
}

/// A window of `s` whose outside is all spaces and whose edges are not is
/// exactly the trimmed string.
proof fn lemma_trim_characterization(s: Seq<u8>, lo: int, hi: int)
    requires
        0 <= lo <= hi <= s.len(),
        forall|j: int| 0 <= j < lo ==> s[j] == 32,
        forall|j: int| hi <= j < s.len() ==> s[j] == 32,
        lo < hi ==> s[lo] != 32 && s[hi - 1] != 32,
        lo == hi ==> lo == 0 || hi == s.len() || s[lo] != 32,
    ensures
        trim_spaces(s) == s.subrange(lo, hi),
    decreases s.len(),
{
    if s.len() == 0 {
        assert(trim_spaces(s) =~= s.subrange(lo, hi));
    } else if s[0] == 32 {
        let tail = s.subrange(1, s.len() as int);
        if lo == hi {
            lemma_trim_characterization(tail, 0, 0);
            assert(trim_spaces(s) =~= s.subrange(lo, hi));
        } else {
            lemma_trim_characterization(tail, lo - 1, hi - 1);
            assert(tail.subrange(lo - 1, hi - 1) =~= s.subrange(lo, hi));
        }
    } else if s[s.len() - 1] == 32 {
        let head = s.subrange(0, s.len() - 1);
        if lo == hi {
            lemma_trim_characterization(head, lo, hi);
        } else {
            lemma_trim_characterization(head, lo, hi);
        }
        assert(head.subrange(lo, hi) =~= s.subrange(lo, hi));
    } else {
        assert(trim_spaces(s) == s);
        assert(s.subrange(lo, hi) =~= s);
    }
}

} // verus!
