//! The quick-capture shortcut: which key combinations are accepted, the text they are
//! stored as, and the key code under which they are registered.
//!
//! The stored text lists the modifiers in a fixed order, `ctrl-alt-shift-cmd-`, then the
//! key, so that `cmd-shift-n` and `shift-cmd-n` are stored alike.
use vstd::prelude::*;
use global_hotkey::hotkey::Code;
use std::str::FromStr;
use crate::text::{chars_of, string_from_chars};

verus! {

#[verifier::external_type_specification]
#[verifier::external_body]
pub struct ExCode(Code);

/// A key code is a plain enum value: its copy is itself.
pub assume_specification[ <Code as Clone>::clone ](c: &Code) -> (r: Code)
    ensures
        r == *c,
;

/// Whether `name` is the W3C name of a key code.
pub uninterp spec fn is_code_name(name: Seq<char>) -> bool;

/// The key code that `Code::from_str` reads from the W3C name `name`.
pub uninterp spec fn named_code(name: Seq<char>) -> Code;

/// The key code named `name` (`Code::from_str`): `Some` exactly for the W3C names that
/// the key table knows, and then the code that the name reads as; the reading depends on
/// the name alone.
#[verifier::external_body]
fn code_named(name: &str) -> (r: Option<Code>)
    ensures
        r is Some <==> is_code_name(name@),
        r matches Some(c) ==> c == named_code(name@),
{
    Code::from_str(name).ok()
}

/// The modifier keys held with a key.
#[derive(Debug, Clone, Copy, PartialEq, Eq, Structural)]
pub struct KeyModifiers {
    pub control: bool,
    pub alt: bool,
    pub shift: bool,
    /// Cmd on macOS, Super elsewhere.
    pub platform: bool,
    pub function: bool,
}

impl KeyModifiers {
    /// No modifier held.
    pub fn none() -> (r: KeyModifiers)
        ensures
            !r.control && !r.alt && !r.shift && !r.platform && !r.function,
    {
        KeyModifiers { control: false, alt: false, shift: false, platform: false, function: false }
    }

    /// The modifier that shortcuts use on this system: Cmd on macOS, Ctrl elsewhere.
    pub fn secondary(&self, on_mac: bool) -> (r: bool)
        ensures
            r == if on_mac {
                self.platform
            } else {
                self.control
            },
    {
        if on_mac {
            self.platform
        } else {
            self.control
        }
    }

    /// How many modifiers are held.
    pub fn count(&self) -> (r: u8)
        ensures
            r == modifier_count(*self),
    {
        let mut n: u8 = 0;
        if self.control {
            n += 1;
        }
        if self.alt {
            n += 1;
        }
        if self.shift {
            n += 1;
        }
        if self.platform {
            n += 1;
        }
        if self.function {
            n += 1;
        }
        n
    }
}

pub open spec fn flag(b: bool) -> int {
    if b {
        1
    } else {
        0
    }
}

pub open spec fn modifier_count(m: KeyModifiers) -> int {
    flag(m.control) + flag(m.alt) + flag(m.shift) + flag(m.platform) + flag(m.function)
}

/// A key with the modifiers held: `key` is the key's name, such as `n`, `f1` or `space`.
#[derive(Debug, Clone, PartialEq, Eq)]
pub struct Keystroke {
    pub modifiers: KeyModifiers,
    pub key: String,
}

pub struct KeystrokeView {
    pub modifiers: KeyModifiers,
    pub key: Seq<char>,
}

impl View for Keystroke {
    type V = KeystrokeView;

    open spec fn view(&self) -> KeystrokeView {
        KeystrokeView { modifiers: self.modifiers, key: self.key@ }
    }
}

/// Why a key combination cannot be the shortcut.
#[derive(Debug, PartialEq, Eq)]
pub enum ShortcutError {
    /// The stored text is not a key combination.
    Unparsable(String),
    /// No modifier is held: the key alone would stop working in every other program.
    NoModifier,
    /// The fn key cannot be part of a global shortcut.
    FunctionModifier,
    /// The key cannot be registered.
    UnsupportedKey(String),
}

/// What to tell the user of a refused shortcut.
pub open spec fn shortcut_error_text(e: ShortcutError) -> Seq<char> {
    match e {
        ShortcutError::Unparsable(source) => "ショートカットとして読み取れません: "@ + source@,
        ShortcutError::NoModifier => "修飾キーを 1 つ以上含めてください。修飾キーなしの割り当ては、ほかのアプリでそのキーが打てなくなります"@,
        ShortcutError::FunctionModifier => "fn キーはグローバルホットキーに使えません"@,
        ShortcutError::UnsupportedKey(key) => "このキーはグローバルホットキーに使えません: "@ + key@,
    }
}

impl ShortcutError {
    /// What to tell the user.
    pub fn message(&self) -> (r: String)
        ensures
            r@ == shortcut_error_text(*self),
    {
        match self {
            ShortcutError::Unparsable(source) => string_from_chars(
                &concat("ショートカットとして読み取れません: ", &chars_of(source.as_str())),
            ),
            ShortcutError::NoModifier => "修飾キーを 1 つ以上含めてください。修飾キーなしの割り当ては、ほかのアプリでそのキーが打てなくなります".to_owned(),
            ShortcutError::FunctionModifier => "fn キーはグローバルホットキーに使えません".to_owned(),
            ShortcutError::UnsupportedKey(key) => string_from_chars(
                &concat("このキーはグローバルホットキーに使えません: ", &chars_of(key.as_str())),
            ),
        }
    }
}

/// The quick-capture shortcut. One that exists is known to be registrable.
#[derive(Debug, Clone, PartialEq, Eq)]
pub struct Shortcut {
    keystroke: Keystroke,
    code: Code,
}

// ---------------------------------------------------------------------------------------
// Key names.

pub open spec fn is_ascii_letter(c: char) -> bool {
    ('a' <= c && c <= 'z') || ('A' <= c && c <= 'Z')
}

pub open spec fn is_ascii_digit(c: char) -> bool {
    '0' <= c && c <= '9'
}

pub open spec fn ascii_upper(c: char) -> char {
    if 'a' <= c && c <= 'z' {
        ((c as u32) - 32) as char
    } else {
        c
    }
}

/// The W3C code name that a key name stands for: named keys by a table, a single letter
/// as `Key` and the capital, a single digit as `Digit` and the digit, `f` and digits as
/// `F` and the digits. Any other key has none.
pub open spec fn code_name(key: Seq<char>) -> Option<Seq<char>> {
    if key == "space"@ {
        Some("Space"@)
    } else if key == "enter"@ {
        Some("Enter"@)
    } else if key == "tab"@ {
        Some("Tab"@)
    } else if key == "escape"@ {
        Some("Escape"@)
    } else if key == "backspace"@ {
        Some("Backspace"@)
    } else if key == "delete"@ {
        Some("Delete"@)
    } else if key == "insert"@ {
        Some("Insert"@)
    } else if key == "home"@ {
        Some("Home"@)
    } else if key == "end"@ {
        Some("End"@)
    } else if key == "pageup"@ {
        Some("PageUp"@)
    } else if key == "pagedown"@ {
        Some("PageDown"@)
    } else if key == "up"@ {
        Some("ArrowUp"@)
    } else if key == "down"@ {
        Some("ArrowDown"@)
    } else if key == "left"@ {
        Some("ArrowLeft"@)
    } else if key == "right"@ {
        Some("ArrowRight"@)
    } else if key.len() == 1 && is_ascii_letter(key[0]) {
        Some("Key"@ + seq![ascii_upper(key[0])])
    } else if key.len() == 1 && is_ascii_digit(key[0]) {
        Some("Digit"@ + key)
    } else if key.len() >= 2 && key[0] == 'f' && is_ascii_digit(key[1]) {
        if forall|i: int| 1 <= i < key.len() ==> is_ascii_digit(#[trigger] key[i]) {
            Some("F"@ + key.subrange(1, key.len() as int))
        } else {
            None
        }
    } else {
        None
    }
}

/// The text a shortcut is stored as: the modifiers in the order ctrl, alt, shift, cmd, each
/// followed by `-`, then the key.
pub open spec fn stored_form(k: KeystrokeView) -> Seq<char> {
    (if k.modifiers.control {
        "ctrl-"@
    } else {
        seq![]
    }) + (if k.modifiers.alt {
        "alt-"@
    } else {
        seq![]
    }) + (if k.modifiers.shift {
        "shift-"@
    } else {
        seq![]
    }) + (if k.modifiers.platform {
        "cmd-"@
    } else {
        seq![]
    }) + k.key
}

/// What a key combination gives: the fn key is refused first, then a combination with no
/// modifier, then a key with no registrable code; anything else is accepted.
pub enum ShortcutCheck {
    Accepted,
    FunctionModifier,
    NoModifier,
    UnsupportedKey,
}

pub open spec fn check_keystroke(k: KeystrokeView) -> ShortcutCheck {
    let m = k.modifiers;
    if m.function {
        ShortcutCheck::FunctionModifier
    } else if !m.control && !m.alt && !m.shift && !m.platform {
        ShortcutCheck::NoModifier
    } else {
        match code_name(k.key) {
            Some(name) => if is_code_name(name) {
                ShortcutCheck::Accepted
            } else {
                ShortcutCheck::UnsupportedKey
            },
            None => ShortcutCheck::UnsupportedKey,
        }
    }
}

/// `from_keystroke`'s answer for `k`, as its contract states it.
pub open spec fn keystroke_result(k: KeystrokeView, r: Result<Shortcut, ShortcutError>) -> bool {
    match check_keystroke(k) {
        ShortcutCheck::Accepted => r matches Ok(s) && s.keystroke_spec() == k && s.code_spec()
            == named_code(code_name(k.key).unwrap()),
        ShortcutCheck::FunctionModifier => r == Err::<Shortcut, ShortcutError>(
            ShortcutError::FunctionModifier,
        ),
        ShortcutCheck::NoModifier => r == Err::<Shortcut, ShortcutError>(ShortcutError::NoModifier),
        ShortcutCheck::UnsupportedKey => r matches Err(ShortcutError::UnsupportedKey(key))
            && key@ == k.key,
    }
}

fn str_is(s: &Vec<char>, literal: &str) -> (r: bool)
    ensures
        r == (s@ == literal@),
{
    let v = chars_of(literal);
    if v.len() != s.len() {
        return false;
    }
    let mut i: usize = 0;
    while i < s.len()
        invariant
            v@ == literal@,
            v@.len() == s@.len(),
            i <= s@.len(),
            forall|k: int| 0 <= k < i ==> s@[k] == v@[k],
        decreases s.len() - i,
    {
        if s[i] != v[i] {
            return false;
        }
        i += 1;
    }
    assert(s@ =~= literal@);
    true
}

fn concat(a: &str, b: &Vec<char>) -> (r: Vec<char>)
    ensures
        r@ == a@ + b@,
{
    let mut r = chars_of(a);
    let mut i: usize = 0;
    let ghost start = r@;
    while i < b.len()
        invariant
            i <= b@.len(),
            r@ == start + b@.take(i as int),
        decreases b.len() - i,
    {
        r.push(b[i]);
        i += 1;
        assert(r@ =~= start + b@.take(i as int));
    }
    assert(b@.take(i as int) =~= b@);
    r
}

/// The W3C code name for key name `key`.
pub fn code_name_of(key: &str) -> (r: Option<String>)
    ensures
        match r {
            Some(name) => code_name(key@) == Some(name@),
            None => code_name(key@) is None,
        },
{
    let k = chars_of(key);
    if str_is(&k, "space") {
        return Some("Space".to_owned());
    }
    if str_is(&k, "enter") {
        return Some("Enter".to_owned());
    }
    if str_is(&k, "tab") {
        return Some("Tab".to_owned());
    }
    if str_is(&k, "escape") {
        return Some("Escape".to_owned());
    }
    if str_is(&k, "backspace") {
        return Some("Backspace".to_owned());
    }
    if str_is(&k, "delete") {
        return Some("Delete".to_owned());
    }
    if str_is(&k, "insert") {
        return Some("Insert".to_owned());
    }
    if str_is(&k, "home") {
        return Some("Home".to_owned());
    }
    if str_is(&k, "end") {
        return Some("End".to_owned());
    }
    if str_is(&k, "pageup") {
        return Some("PageUp".to_owned());
    }
    if str_is(&k, "pagedown") {
        return Some("PageDown".to_owned());
    }
    if str_is(&k, "up") {
        return Some("ArrowUp".to_owned());
    }
    if str_is(&k, "down") {
        return Some("ArrowDown".to_owned());
    }
    if str_is(&k, "left") {
        return Some("ArrowLeft".to_owned());
    }
    if str_is(&k, "right") {
        return Some("ArrowRight".to_owned());
    }
    if k.len() == 1 && (('a' <= k[0] && k[0] <= 'z') || ('A' <= k[0] && k[0] <= 'Z')) {
        let upper = if 'a' <= k[0] && k[0] <= 'z' {
            let code = (k[0] as u32) - 32;
            char_of(code)
        } else {
            k[0]
        };
        let mut name = chars_of("Key");
        name.push(upper);
        return Some(string_from_chars(&name));
    }
    if k.len() == 1 && '0' <= k[0] && k[0] <= '9' {
        return Some(string_from_chars(&concat("Digit", &k)));
    }
    if k.len() >= 2 && k[0] == 'f' && '0' <= k[1] && k[1] <= '9' {
        let mut digits: Vec<char> = Vec::new();
        let mut i: usize = 1;
        while i < k.len()
            invariant
                1 <= i <= k@.len(),
                k@ == key@,
                digits@ == k@.subrange(1, i as int),
                forall|j: int| 1 <= j < i ==> is_ascii_digit(#[trigger] k@[j]),
                code_name(key@) == (if (forall|j: int| 1 <= j < k@.len() ==> is_ascii_digit(
                    #[trigger] k@[j],
                )) {
                    Some("F"@ + k@.subrange(1, k@.len() as int))
                } else {
                    None
                }),
            decreases k.len() - i,
        {
            if !('0' <= k[i] && k[i] <= '9') {
                assert(!is_ascii_digit(k@[i as int]));
                assert(!(forall|j: int| 1 <= j < k@.len() ==> is_ascii_digit(#[trigger] k@[j])));
                return None;
            }
            digits.push(k[i]);
            i += 1;
            assert(digits@ =~= k@.subrange(1, i as int));
        }
        return Some(string_from_chars(&concat("F", &digits)));
    }
    None
}

/// The character with code `code`, a lower-case ASCII letter moved to upper case.
fn char_of(code: u32) -> (r: char)
    requires
        'A' as u32 <= code <= 'Z' as u32,
    ensures
        r == code as char,
{
    let mut c: char = 'A';
    let mut n: u32 = 'A' as u32;
    while n < code
        invariant
            'A' as u32 <= n <= code <= 'Z' as u32,
            c == n as char,
        decreases code - n,
    {
        c = match c {
            'A' => 'B', 'B' => 'C', 'C' => 'D', 'D' => 'E', 'E' => 'F', 'F' => 'G', 'G' => 'H',
            'H' => 'I', 'I' => 'J', 'J' => 'K', 'K' => 'L', 'L' => 'M', 'M' => 'N', 'N' => 'O',
            'O' => 'P', 'P' => 'Q', 'Q' => 'R', 'R' => 'S', 'S' => 'T', 'T' => 'U', 'U' => 'V',
            'V' => 'W', 'W' => 'X', 'X' => 'Y', _ => 'Z',
        };
        n += 1;
    }
    c
}

/// The key code that key name `key` is registered under, if it has one.
pub fn key_code(key: &str) -> (r: Option<Code>)
    ensures
        r is Some <==> (code_name(key@) matches Some(name) && is_code_name(name)),
        r matches Some(c) ==> c == named_code(code_name(key@).unwrap()),
{
    match code_name_of(key) {
        Some(name) => code_named(name.as_str()),
        None => None,
    }
}

impl Shortcut {
    pub closed spec fn keystroke_spec(&self) -> KeystrokeView {
        self.keystroke@
    }

    /// The key code it was made with.
    pub closed spec fn code_spec(&self) -> Code {
        self.code
    }

    /// The shortcut for a pressed key combination: the fn key, a combination without a
    /// modifier and a key that cannot be registered are refused.
    pub fn from_keystroke(keystroke: &Keystroke) -> (r: Result<Shortcut, ShortcutError>)
        ensures
            keystroke_result(keystroke@, r),
    {
        let modifiers = keystroke.modifiers;
        if modifiers.function {
            return Err(ShortcutError::FunctionModifier);
        }
        if !modifiers.control && !modifiers.alt && !modifiers.shift && !modifiers.platform {
            return Err(ShortcutError::NoModifier);
        }
        let code = match key_code(keystroke.key.as_str()) {
            Some(code) => code,
            None => return Err(ShortcutError::UnsupportedKey(keystroke.key.clone())),
        };
        Ok(Shortcut { keystroke: Keystroke { modifiers, key: keystroke.key.clone() }, code })
    }

    /// The shortcut stored as `source`. Text that is not a key combination is
    /// `Unparsable`; a combination is then checked as `from_keystroke` checks it.
    pub fn parse(source: &str) -> (r: Result<Shortcut, ShortcutError>)
        ensures
            match parse_keystroke(source@) {
                None => r matches Err(ShortcutError::Unparsable(s)) && s@ == source@,
                Some(k) => keystroke_result(k, r),
            },
    {
        match parse_stored(source) {
            None => Err(ShortcutError::Unparsable(source.to_owned())),
            Some(keystroke) => Shortcut::from_keystroke(&keystroke),
        }
    }

    /// The key combination.
    pub fn keystroke(&self) -> (r: &Keystroke)
        ensures
            r@ == self.keystroke_spec(),
    {
        &self.keystroke
    }

    /// The key code it is registered under: the one it was made with, which
    /// `from_keystroke` and `parse` state.
    pub fn code(&self) -> (r: Code)
        ensures
            r == self.code_spec(),
    {
        self.code
    }

    /// The text it is stored and shown as.
    pub fn to_text(&self) -> (r: String)
        ensures
            r@ == stored_form(self.keystroke_spec()),
    {
        let m = self.keystroke.modifiers;
        let mut out: Vec<char> = Vec::new();
        if m.control {
            out = concat_all(&out, "ctrl-");
        }
        if m.alt {
            out = concat_all(&out, "alt-");
        }
        if m.shift {
            out = concat_all(&out, "shift-");
        }
        if m.platform {
            out = concat_all(&out, "cmd-");
        }
        let out = concat_all(&out, self.keystroke.key.as_str());
        assert(out@ =~= stored_form(self.keystroke@));
        string_from_chars(&out)
    }
}

fn concat_all(a: &Vec<char>, b: &str) -> (r: Vec<char>)
    ensures
        r@ == a@ + b@,
{
    let v = chars_of(b);
    let mut r: Vec<char> = Vec::new();
    let mut i: usize = 0;
    while i < a.len()
        invariant
            i <= a@.len(),
            r@ == a@.take(i as int),
        decreases a.len() - i,
    {
        r.push(a[i]);
        i += 1;
        assert(r@ =~= a@.take(i as int));
    }
    let mut j: usize = 0;
    while j < v.len()
        invariant
            i == a@.len(),
            j <= v@.len(),
            v@ == b@,
            r@ == a@ + v@.take(j as int),
        decreases v.len() - j,
    {
        r.push(v[j]);
        j += 1;
        assert(r@ =~= a@ + v@.take(j as int));
    }
    assert(a@.take(i as int) =~= a@);
    assert(v@.take(j as int) =~= v@);
    r
}

// ---------------------------------------------------------------------------------------
// Reading the stored text.

/// A modifier named in the stored text, added to `m`.
pub open spec fn modifier_named(m: KeyModifiers, name: Seq<char>) -> Option<KeyModifiers> {
    if name == "ctrl"@ {
        Some(KeyModifiers { control: true, ..m })
    } else if name == "alt"@ {
        Some(KeyModifiers { alt: true, ..m })
    } else if name == "shift"@ {
        Some(KeyModifiers { shift: true, ..m })
    } else if name == "cmd"@ {
        Some(KeyModifiers { platform: true, ..m })
    } else if name == "fn"@ {
        Some(KeyModifiers { function: true, ..m })
    } else {
        None
    }
}

/// Reading stored text `s` from place `i`, with modifiers `m` read so far and `part` the
/// text since the last `-`: each part before a `-` names a modifier, and the last part,
/// which must not be empty, is the key.
pub open spec fn parse_from(s: Seq<char>, i: int, m: KeyModifiers, part: Seq<char>) -> Option<
    KeystrokeView,
>
    decreases s.len() - i,
{
    if i < 0 || i >= s.len() {
        if part.len() == 0 {
            None
        } else {
            Some(KeystrokeView { modifiers: m, key: part })
        }
    } else if s[i] == '-' {
        match modifier_named(m, part) {
            Some(m2) => parse_from(s, i + 1, m2, seq![]),
            None => None,
        }
    } else {
        parse_from(s, i + 1, m, part.push(s[i]))
    }
}

/// The key combination that stored text `s` describes.
pub open spec fn parse_keystroke(s: Seq<char>) -> Option<KeystrokeView> {
    parse_from(
        s,
        0,
        KeyModifiers { control: false, alt: false, shift: false, platform: false, function: false },
        seq![],
    )
}

/// The modifier named `name`, added to `m`.
fn add_modifier(m: KeyModifiers, name: &Vec<char>) -> (r: Option<KeyModifiers>)
    ensures
        r == modifier_named(m, name@),
{
    if str_is(name, "ctrl") {
        Some(KeyModifiers { control: true, ..m })
    } else if str_is(name, "alt") {
        Some(KeyModifiers { alt: true, ..m })
    } else if str_is(name, "shift") {
        Some(KeyModifiers { shift: true, ..m })
    } else if str_is(name, "cmd") {
        Some(KeyModifiers { platform: true, ..m })
    } else if str_is(name, "fn") {
        Some(KeyModifiers { function: true, ..m })
    } else {
        None
    }
}

/// The key combination that stored text `source` describes.
pub fn parse_stored(source: &str) -> (r: Option<Keystroke>)
    ensures
        match r {
            Some(k) => parse_keystroke(source@) == Some(k@),
            None => parse_keystroke(source@) is None,
        },
{
    let s = chars_of(source);
    let mut m = KeyModifiers::none();
    let mut part: Vec<char> = Vec::new();
    let mut i: usize = 0;
    while i < s.len()
        invariant
            s@ == source@,
            i <= s@.len(),
            parse_from(s@, i as int, m, part@) == parse_keystroke(source@),
        decreases s.len() - i,
    {
        if s[i] == '-' {
            match add_modifier(m, &part) {
                Some(m2) => {
                    m = m2;
                    part = Vec::new();
                },
                None => return None,
            }
        } else {
            part.push(s[i]);
        }
        i += 1;
    }
    if part.len() == 0 {
        return None;
    }
    Some(Keystroke { modifiers: m, key: string_from_chars(&part) })
}

} // verus!

verus! {

/// Reading the stored text past the end of a prefix reads the rest alone.
proof fn lemma_parse_past_prefix(p: Seq<char>, q: Seq<char>, i: int, m: KeyModifiers, part: Seq<char>)
    requires
        0 <= i <= q.len(),
    ensures
        parse_from(p + q, p.len() + i, m, part) == parse_from(q, i, m, part),
    decreases q.len() - i,
{
    if i < q.len() {
        assert((p + q)[p.len() + i] == q[i]);
        if q[i] == '-' {
            match modifier_named(m, part) {
                Some(m2) => lemma_parse_past_prefix(p, q, i + 1, m2, seq![]),
                None => {},
            }
        } else {
            lemma_parse_past_prefix(p, q, i + 1, m, part.push(q[i]));
        }
    }
}

/// A run of characters with no `-` is read into the part being read.
proof fn lemma_parse_run(s: Seq<char>, i: int, j: int, m: KeyModifiers, part: Seq<char>)
    requires
        0 <= i <= j <= s.len(),
        forall|t: int| i <= t < j ==> #[trigger] s[t] != '-',
    ensures
        parse_from(s, i, m, part) == parse_from(s, j, m, part + s.subrange(i, j)),
    decreases j - i,
{
    if i < j {
        lemma_parse_run(s, i + 1, j, m, part.push(s[i]));
        assert(part.push(s[i]) + s.subrange(i + 1, j) =~= part + s.subrange(i, j));
    } else {
        assert(part + s.subrange(i, j) =~= part);
    }
}

/// Reading a modifier's name and its `-` adds the modifier, then reads the rest.
proof fn lemma_parse_modifier(name: Seq<char>, rest: Seq<char>, m: KeyModifiers)
    requires
        name == "ctrl"@ || name == "alt"@ || name == "shift"@ || name == "cmd"@,
    ensures
        parse_from(name + "-"@ + rest, 0, m, seq![]) == parse_from(
            rest,
            0,
            modifier_named(m, name).unwrap(),
            seq![],
        ),
{
    reveal_strlit("ctrl");
    reveal_strlit("alt");
    reveal_strlit("shift");
    reveal_strlit("cmd");
    reveal_strlit("fn");
    reveal_strlit("-");
    let p = name + "-"@;
    let s = p + rest;
    assert forall|t: int| 0 <= t < name.len() implies #[trigger] s[t] != '-' by {
        assert(s[t] == name[t]);
    }
    lemma_parse_run(s, 0, name.len() as int, m, seq![]);
    assert(Seq::<char>::empty() + s.subrange(0, name.len() as int) =~= name);
    assert(s[name.len() as int] == '-');
    lemma_parse_past_prefix(p, rest, 0, modifier_named(m, name).unwrap(), seq![]);
}

/// A key name with no `-` is read as the key.
proof fn lemma_parse_key(key: Seq<char>, m: KeyModifiers)
    requires
        key.len() > 0,
        forall|t: int| 0 <= t < key.len() ==> #[trigger] key[t] != '-',
    ensures
        parse_from(key, 0, m, seq![]) == Some(KeystrokeView { modifiers: m, key: key }),
{
    lemma_parse_run(key, 0, key.len() as int, m, seq![]);
    assert(Seq::<char>::empty() + key.subrange(0, key.len() as int) =~= key);
}

/// A key that has a code name has no `-` in its name.
proof fn lemma_code_name_has_no_dash(key: Seq<char>)
    requires
        code_name(key) is Some,
    ensures
        key.len() > 0,
        forall|t: int| 0 <= t < key.len() ==> #[trigger] key[t] != '-',
{
    reveal_strlit("space");
    reveal_strlit("enter");
    reveal_strlit("tab");
    reveal_strlit("escape");
    reveal_strlit("backspace");
    reveal_strlit("delete");
    reveal_strlit("insert");
    reveal_strlit("home");
    reveal_strlit("end");
    reveal_strlit("pageup");
    reveal_strlit("pagedown");
    reveal_strlit("up");
    reveal_strlit("down");
    reveal_strlit("left");
    reveal_strlit("right");
}

/// A shortcut's stored text reads back as the same key combination: the stored form of
/// every combination without the fn key whose key has a code name, every accepted one
/// among them, round-trips.
pub proof fn law_stored_form_round_trips(k: KeystrokeView)
    requires
        !k.modifiers.function,
        code_name(k.key) is Some,
    ensures
        parse_keystroke(stored_form(k)) == Some(k),
{
    lemma_code_name_has_no_dash(k.key);
    let m = k.modifiers;
    let none = KeyModifiers { control: false, alt: false, shift: false, platform: false, function: false };
    let p_part = if m.platform { "cmd-"@ } else { seq![] };
    let s_part = if m.shift { "shift-"@ } else { seq![] };
    let a_part = if m.alt { "alt-"@ } else { seq![] };
    let c_part = if m.control { "ctrl-"@ } else { seq![] };
    let r4 = p_part + k.key;
    let r3 = s_part + r4;
    let r2 = a_part + r3;
    let r1 = c_part + r2;
    assert(stored_form(k) =~= r1);
    reveal_strlit("ctrl-");
    reveal_strlit("alt-");
    reveal_strlit("shift-");
    reveal_strlit("cmd-");
    reveal_strlit("ctrl");
    reveal_strlit("alt");
    reveal_strlit("shift");
    reveal_strlit("cmd");
    reveal_strlit("-");
    let m1 = KeyModifiers { control: m.control, ..none };
    let m2 = KeyModifiers { alt: m.alt, ..m1 };
    let m3 = KeyModifiers { shift: m.shift, ..m2 };
    let m4 = KeyModifiers { platform: m.platform, ..m3 };
    if m.control {
        assert("ctrl-"@ =~= "ctrl"@ + "-"@);
        lemma_parse_modifier("ctrl"@, r2, none);
    } else {
        assert(r1 =~= r2);
    }
    if m.alt {
        assert("alt-"@ =~= "alt"@ + "-"@);
        lemma_parse_modifier("alt"@, r3, m1);
    } else {
        assert(r2 =~= r3);
    }
    if m.shift {
        assert("shift-"@ =~= "shift"@ + "-"@);
        lemma_parse_modifier("shift"@, r4, m2);
    } else {
        assert(r3 =~= r4);
    }
    if m.platform {
        assert("cmd-"@ =~= "cmd"@ + "-"@);
        lemma_parse_modifier("cmd"@, k.key, m3);
    } else {
        assert(r4 =~= k.key);
    }
    lemma_parse_key(k.key, m4);
    assert(m4 == m);
}

} // verus!
