use vstd::prelude::*;
use vstd::utf8::{encode_scalar, encode_utf8, has_width_1_encoding, is_ascii_chars_encode_utf8};
use std::collections::HashSet;

use crate::keycodes::{
    BTN_EXTRA, BTN_LEFT, BTN_MIDDLE, BTN_RIGHT, BTN_SIDE, KEY_0, KEY_1, KEY_102ND, KEY_2, KEY_3, KEY_4, KEY_5, KEY_6, KEY_7, KEY_8, KEY_9, KEY_A, KEY_APOSTROPHE, KEY_B, KEY_BACKSLASH, KEY_BACKSPACE, KEY_C, KEY_COMMA, KEY_D, KEY_DELETE, KEY_DOT, KEY_DOWN, KEY_E, KEY_END, KEY_ENTER, KEY_EQUAL, KEY_ESC, KEY_F, KEY_F1, KEY_F10, KEY_F11, KEY_F12, KEY_F13, KEY_F14, KEY_F15, KEY_F16, KEY_F17, KEY_F18, KEY_F19, KEY_F2, KEY_F20, KEY_F21, KEY_F22, KEY_F23, KEY_F24, KEY_F3, KEY_F4, KEY_F5, KEY_F6, KEY_F7, KEY_F8, KEY_F9, KEY_G, KEY_GRAVE, KEY_H, KEY_HOME, KEY_I, KEY_INSERT, KEY_J, KEY_K, KEY_KP0, KEY_KP1, KEY_KP2, KEY_KP3, KEY_KP4, KEY_KP5, KEY_KP6, KEY_KP7, KEY_KP8, KEY_KP9, KEY_KPASTERISK, KEY_KPDOT, KEY_KPENTER, KEY_KPMINUS, KEY_KPPLUS, KEY_KPSLASH, KEY_L, KEY_LEFT, KEY_LEFTALT, KEY_LEFTBRACE, KEY_LEFTCTRL, KEY_LEFTMETA, KEY_LEFTSHIFT, KEY_M, KEY_MINUS, KEY_N, KEY_O, KEY_P, KEY_PAGEDOWN, KEY_PAGEUP, KEY_Q, KEY_R, KEY_RIGHT, KEY_RIGHTALT, KEY_RIGHTBRACE, KEY_RIGHTCTRL, KEY_RIGHTMETA, KEY_RIGHTSHIFT, KEY_S, KEY_SEMICOLON, KEY_SLASH, KEY_SPACE, KEY_T, KEY_TAB, KEY_U, KEY_UP, KEY_V, KEY_W, KEY_X, KEY_Y, KEY_Z,
};
use crate::text::{
    all_ascii, all_digits, ascii_lowercase, chars_eq, chars_within, is_digit, chars_of, has_prefix, is_white_space, lemma_ascii_lowercase_concat,
    lemma_ascii_lowercase_plain, lemma_replace_after_plus, lemma_replace_missing_char,
    lemma_replace_short, lemma_split_first_piece, lemma_split_pieces, lemma_split_single_piece,
    lemma_trim_within, lemma_within_plain, lowercased, parse_i32, replace_all, replace_chars,
    spec_parse_i32, split_chars, split_on, starts_with_str, str_eq, string_of, to_lowercase, trim,
    trim_chars, trim_end, trim_start, views,
};

verus! {

broadcast use {vstd::string::group_string_axioms, vstd::std_specs::hash::group_hash_axioms};

pub const VK_LBUTTON: i32 = 0x01;
pub const VK_RBUTTON: i32 = 0x02;
pub const VK_MBUTTON: i32 = 0x04;
pub const VK_XBUTTON1: i32 = 0x05;
pub const VK_XBUTTON2: i32 = 0x06;
pub const VK_BACK: i32 = 0x08;
pub const VK_TAB: i32 = 0x09;
pub const VK_RETURN: i32 = 0x0D;
pub const VK_ESCAPE: i32 = 0x1B;
pub const VK_SPACE: i32 = 0x20;
pub const VK_PRIOR: i32 = 0x21;
pub const VK_NEXT: i32 = 0x22;
pub const VK_END: i32 = 0x23;
pub const VK_HOME: i32 = 0x24;
pub const VK_LEFT: i32 = 0x25;
pub const VK_UP: i32 = 0x26;
pub const VK_RIGHT: i32 = 0x27;
pub const VK_DOWN: i32 = 0x28;
pub const VK_INSERT: i32 = 0x2D;
pub const VK_DELETE: i32 = 0x2E;
pub const VK_NUMPAD0: i32 = 0x60;
pub const VK_NUMPAD1: i32 = 0x61;
pub const VK_NUMPAD2: i32 = 0x62;
pub const VK_NUMPAD3: i32 = 0x63;
pub const VK_NUMPAD4: i32 = 0x64;
pub const VK_NUMPAD5: i32 = 0x65;
pub const VK_NUMPAD6: i32 = 0x66;
pub const VK_NUMPAD7: i32 = 0x67;
pub const VK_NUMPAD8: i32 = 0x68;
pub const VK_NUMPAD9: i32 = 0x69;
pub const VK_MULTIPLY: i32 = 0x6A;
pub const VK_ADD: i32 = 0x6B;
pub const VK_SUBTRACT: i32 = 0x6D;
pub const VK_DECIMAL: i32 = 0x6E;
pub const VK_DIVIDE: i32 = 0x6F;
pub const VK_F1: i32 = 0x70;
pub const VK_OEM_1: i32 = 0xBA;
pub const VK_OEM_PLUS: i32 = 0xBB;
pub const VK_OEM_COMMA: i32 = 0xBC;
pub const VK_OEM_MINUS: i32 = 0xBD;
pub const VK_OEM_PERIOD: i32 = 0xBE;
pub const VK_OEM_2: i32 = 0xBF;
pub const VK_OEM_3: i32 = 0xC0;
pub const VK_OEM_4: i32 = 0xDB;
pub const VK_OEM_5: i32 = 0xDC;
pub const VK_OEM_6: i32 = 0xDD;
pub const VK_OEM_7: i32 = 0xDE;
pub const VK_OEM_102: i32 = 0xE2;

/// Codes for the main keys that have no virtual-key code of their own.
pub const VK_SCROLL_UP_PSEUDO: i32 = -1;
pub const VK_SCROLL_DOWN_PSEUDO: i32 = -2;
pub const VK_NUMPAD_ENTER_PSEUDO: i32 = -3;

/// How long after a wheel notch a scroll hotkey counts as held.
pub const SCROLL_WINDOW_MS: u64 = 200;

/// A table entry as plain values.
pub open spec fn key_entry_view(r: Option<(i32, String)>) -> Option<(i32, Seq<char>)> {
    match r {
        Some((vk, name)) => Some((vk, name@)),
        None => None,
    }
}

/// A main-key result as plain values.
pub open spec fn main_key_view(r: Result<(i32, String), String>) -> Result<(i32, Seq<char>), Seq<char>> {
    match r {
        Ok((vk, name)) => Ok((vk, name@)),
        Err(e) => Err(e@),
    }
}

/// The pointer keys of the hotkey table: aliases, code and the name kept.
pub open spec fn pointer_main_key(t: Seq<char>) -> Option<(i32, Seq<char>)> {
    if t == "mouseleft"@ || t == "mouse1"@ {
        Some((VK_LBUTTON, "mouseleft"@))
    } else if t == "mouseright"@ || t == "mouse2"@ {
        Some((VK_RBUTTON, "mouseright"@))
    } else if t == "mousemiddle"@ || t == "mouse3"@ || t == "scrollbutton"@ || t == "middleclick"@ {
        Some((VK_MBUTTON, "mousemiddle"@))
    } else if t == "mouse4"@ || t == "mouseback"@ || t == "xbutton1"@ {
        Some((VK_XBUTTON1, "mouse4"@))
    } else if t == "mouse5"@ || t == "mouseforward"@ || t == "xbutton2"@ {
        Some((VK_XBUTTON2, "mouse5"@))
    } else if t == "scrollup"@ || t == "wheelup"@ {
        Some((VK_SCROLL_UP_PSEUDO, "scrollup"@))
    } else if t == "scrolldown"@ || t == "wheeldown"@ {
        Some((VK_SCROLL_DOWN_PSEUDO, "scrolldown"@))
    } else {
        None
    }
}

fn pointer_main_key_lookup(t: &str) -> (r: Option<(i32, String)>)
    ensures
        key_entry_view(r) == pointer_main_key(t@),
{
    if str_eq(t, "mouseleft") || str_eq(t, "mouse1") {
        return Some((VK_LBUTTON, String::from_str("mouseleft")));
    }
    if str_eq(t, "mouseright") || str_eq(t, "mouse2") {
        return Some((VK_RBUTTON, String::from_str("mouseright")));
    }
    if str_eq(t, "mousemiddle") || str_eq(t, "mouse3") || str_eq(t, "scrollbutton") || str_eq(t, "middleclick") {
        return Some((VK_MBUTTON, String::from_str("mousemiddle")));
    }
    if str_eq(t, "mouse4") || str_eq(t, "mouseback") || str_eq(t, "xbutton1") {
        return Some((VK_XBUTTON1, String::from_str("mouse4")));
    }
    if str_eq(t, "mouse5") || str_eq(t, "mouseforward") || str_eq(t, "xbutton2") {
        return Some((VK_XBUTTON2, String::from_str("mouse5")));
    }
    if str_eq(t, "scrollup") || str_eq(t, "wheelup") {
        return Some((VK_SCROLL_UP_PSEUDO, String::from_str("scrollup")));
    }
    if str_eq(t, "scrolldown") || str_eq(t, "wheeldown") {
        return Some((VK_SCROLL_DOWN_PSEUDO, String::from_str("scrolldown")));
    }
    None
}

/// The numpad keys of the hotkey table: aliases, code and the name kept.
pub open spec fn numpad_main_key(t: Seq<char>) -> Option<(i32, Seq<char>)> {
    if t == "numpad0"@ {
        Some((VK_NUMPAD0, "numpad0"@))
    } else if t == "numpad1"@ {
        Some((VK_NUMPAD1, "numpad1"@))
    } else if t == "numpad2"@ {
        Some((VK_NUMPAD2, "numpad2"@))
    } else if t == "numpad3"@ {
        Some((VK_NUMPAD3, "numpad3"@))
    } else if t == "numpad4"@ {
        Some((VK_NUMPAD4, "numpad4"@))
    } else if t == "numpad5"@ {
        Some((VK_NUMPAD5, "numpad5"@))
    } else if t == "numpad6"@ {
        Some((VK_NUMPAD6, "numpad6"@))
    } else if t == "numpad7"@ {
        Some((VK_NUMPAD7, "numpad7"@))
    } else if t == "numpad8"@ {
        Some((VK_NUMPAD8, "numpad8"@))
    } else if t == "numpad9"@ {
        Some((VK_NUMPAD9, "numpad9"@))
    } else if t == "numpadadd"@ {
        Some((VK_ADD, "numpadadd"@))
    } else if t == "numpadsubtract"@ {
        Some((VK_SUBTRACT, "numpadsubtract"@))
    } else if t == "numpadmultiply"@ {
        Some((VK_MULTIPLY, "numpadmultiply"@))
    } else if t == "numpaddivide"@ {
        Some((VK_DIVIDE, "numpaddivide"@))
    } else if t == "numpaddecimal"@ {
        Some((VK_DECIMAL, "numpaddecimal"@))
    } else if t == "numpadenter"@ {
        Some((VK_NUMPAD_ENTER_PSEUDO, "numpadenter"@))
    } else if t == "<"@ || t == ">"@ || t == "intlbackslash"@ || t == "oem102"@ || t == "nonusbackslash"@ {
        Some((VK_OEM_102, "IntlBackslash"@))
    } else {
        None
    }
}

fn numpad_main_key_lookup(t: &str) -> (r: Option<(i32, String)>)
    ensures
        key_entry_view(r) == numpad_main_key(t@),
{
    if str_eq(t, "numpad0") {
        return Some((VK_NUMPAD0, String::from_str("numpad0")));
    }
    if str_eq(t, "numpad1") {
        return Some((VK_NUMPAD1, String::from_str("numpad1")));
    }
    if str_eq(t, "numpad2") {
        return Some((VK_NUMPAD2, String::from_str("numpad2")));
    }
    if str_eq(t, "numpad3") {
        return Some((VK_NUMPAD3, String::from_str("numpad3")));
    }
    if str_eq(t, "numpad4") {
        return Some((VK_NUMPAD4, String::from_str("numpad4")));
    }
    if str_eq(t, "numpad5") {
        return Some((VK_NUMPAD5, String::from_str("numpad5")));
    }
    if str_eq(t, "numpad6") {
        return Some((VK_NUMPAD6, String::from_str("numpad6")));
    }
    if str_eq(t, "numpad7") {
        return Some((VK_NUMPAD7, String::from_str("numpad7")));
    }
    if str_eq(t, "numpad8") {
        return Some((VK_NUMPAD8, String::from_str("numpad8")));
    }
    if str_eq(t, "numpad9") {
        return Some((VK_NUMPAD9, String::from_str("numpad9")));
    }
    if str_eq(t, "numpadadd") {
        return Some((VK_ADD, String::from_str("numpadadd")));
    }
    if str_eq(t, "numpadsubtract") {
        return Some((VK_SUBTRACT, String::from_str("numpadsubtract")));
    }
    if str_eq(t, "numpadmultiply") {
        return Some((VK_MULTIPLY, String::from_str("numpadmultiply")));
    }
    if str_eq(t, "numpaddivide") {
        return Some((VK_DIVIDE, String::from_str("numpaddivide")));
    }
    if str_eq(t, "numpaddecimal") {
        return Some((VK_DECIMAL, String::from_str("numpaddecimal")));
    }
    if str_eq(t, "numpadenter") {
        return Some((VK_NUMPAD_ENTER_PSEUDO, String::from_str("numpadenter")));
    }
    if str_eq(t, "<") || str_eq(t, ">") || str_eq(t, "intlbackslash") || str_eq(t, "oem102") || str_eq(t, "nonusbackslash") {
        return Some((VK_OEM_102, String::from_str("IntlBackslash")));
    }
    None
}

/// The editing keys of the hotkey table: aliases, code and the name kept.
pub open spec fn editing_main_key(t: Seq<char>) -> Option<(i32, Seq<char>)> {
    if t == "space"@ || t == "spacebar"@ {
        Some((VK_SPACE, "space"@))
    } else if t == "tab"@ {
        Some((VK_TAB, "tab"@))
    } else if t == "enter"@ {
        Some((VK_RETURN, "enter"@))
    } else if t == "backspace"@ {
        Some((VK_BACK, "backspace"@))
    } else if t == "delete"@ {
        Some((VK_DELETE, "delete"@))
    } else if t == "insert"@ {
        Some((VK_INSERT, "insert"@))
    } else if t == "home"@ {
        Some((VK_HOME, "home"@))
    } else if t == "end"@ {
        Some((VK_END, "end"@))
    } else if t == "pageup"@ {
        Some((VK_PRIOR, "pageup"@))
    } else if t == "pagedown"@ {
        Some((VK_NEXT, "pagedown"@))
    } else if t == "up"@ {
        Some((VK_UP, "up"@))
    } else if t == "down"@ {
        Some((VK_DOWN, "down"@))
    } else if t == "left"@ {
        Some((VK_LEFT, "left"@))
    } else if t == "right"@ {
        Some((VK_RIGHT, "right"@))
    } else if t == "esc"@ || t == "escape"@ {
        Some((VK_ESCAPE, "escape"@))
    } else {
        None
    }
}

fn editing_main_key_lookup(t: &str) -> (r: Option<(i32, String)>)
    ensures
        key_entry_view(r) == editing_main_key(t@),
{
    if str_eq(t, "space") || str_eq(t, "spacebar") {
        return Some((VK_SPACE, String::from_str("space")));
    }
    if str_eq(t, "tab") {
        return Some((VK_TAB, String::from_str("tab")));
    }
    if str_eq(t, "enter") {
        return Some((VK_RETURN, String::from_str("enter")));
    }
    if str_eq(t, "backspace") {
        return Some((VK_BACK, String::from_str("backspace")));
    }
    if str_eq(t, "delete") {
        return Some((VK_DELETE, String::from_str("delete")));
    }
    if str_eq(t, "insert") {
        return Some((VK_INSERT, String::from_str("insert")));
    }
    if str_eq(t, "home") {
        return Some((VK_HOME, String::from_str("home")));
    }
    if str_eq(t, "end") {
        return Some((VK_END, String::from_str("end")));
    }
    if str_eq(t, "pageup") {
        return Some((VK_PRIOR, String::from_str("pageup")));
    }
    if str_eq(t, "pagedown") {
        return Some((VK_NEXT, String::from_str("pagedown")));
    }
    if str_eq(t, "up") {
        return Some((VK_UP, String::from_str("up")));
    }
    if str_eq(t, "down") {
        return Some((VK_DOWN, String::from_str("down")));
    }
    if str_eq(t, "left") {
        return Some((VK_LEFT, String::from_str("left")));
    }
    if str_eq(t, "right") {
        return Some((VK_RIGHT, String::from_str("right")));
    }
    if str_eq(t, "esc") || str_eq(t, "escape") {
        return Some((VK_ESCAPE, String::from_str("escape")));
    }
    None
}

/// The symbol keys of the hotkey table: aliases, code and the name kept.
pub open spec fn symbol_main_key(t: Seq<char>) -> Option<(i32, Seq<char>)> {
    if t == "/"@ || t == "slash"@ {
        Some((VK_OEM_2, "/"@))
    } else if t == "\\"@ || t == "backslash"@ {
        Some((VK_OEM_5, "\\"@))
    } else if t == ";"@ || t == "semicolon"@ {
        Some((VK_OEM_1, ";"@))
    } else if t == "'"@ || t == "quote"@ {
        Some((VK_OEM_7, "'"@))
    } else if t == "["@ || t == "bracketleft"@ {
        Some((VK_OEM_4, "["@))
    } else if t == "]"@ || t == "bracketright"@ {
        Some((VK_OEM_6, "]"@))
    } else if t == "-"@ || t == "minus"@ {
        Some((VK_OEM_MINUS, "-"@))
    } else if t == "="@ || t == "equal"@ {
        Some((VK_OEM_PLUS, "="@))
    } else if t == "`"@ || t == "backquote"@ {
        Some((VK_OEM_3, "`"@))
    } else if t == ","@ || t == "comma"@ {
        Some((VK_OEM_COMMA, ","@))
    } else if t == "."@ || t == "period"@ {
        Some((VK_OEM_PERIOD, "."@))
    } else {
        None
    }
}

fn symbol_main_key_lookup(t: &str) -> (r: Option<(i32, String)>)
    ensures
        key_entry_view(r) == symbol_main_key(t@),
{
    if str_eq(t, "/") || str_eq(t, "slash") {
        return Some((VK_OEM_2, String::from_str("/")));
    }
    if str_eq(t, "\\") || str_eq(t, "backslash") {
        return Some((VK_OEM_5, String::from_str("\\")));
    }
    if str_eq(t, ";") || str_eq(t, "semicolon") {
        return Some((VK_OEM_1, String::from_str(";")));
    }
    if str_eq(t, "'") || str_eq(t, "quote") {
        return Some((VK_OEM_7, String::from_str("'")));
    }
    if str_eq(t, "[") || str_eq(t, "bracketleft") {
        return Some((VK_OEM_4, String::from_str("[")));
    }
    if str_eq(t, "]") || str_eq(t, "bracketright") {
        return Some((VK_OEM_6, String::from_str("]")));
    }
    if str_eq(t, "-") || str_eq(t, "minus") {
        return Some((VK_OEM_MINUS, String::from_str("-")));
    }
    if str_eq(t, "=") || str_eq(t, "equal") {
        return Some((VK_OEM_PLUS, String::from_str("=")));
    }
    if str_eq(t, "`") || str_eq(t, "backquote") {
        return Some((VK_OEM_3, String::from_str("`")));
    }
    if str_eq(t, ",") || str_eq(t, "comma") {
        return Some((VK_OEM_COMMA, String::from_str(",")));
    }
    if str_eq(t, ".") || str_eq(t, "period") {
        return Some((VK_OEM_PERIOD, String::from_str(".")));
    }
    None
}

/// The keys that the hotkey table names.
pub open spec fn named_main_key(t: Seq<char>) -> Option<(i32, Seq<char>)> {
    if pointer_main_key(t) is Some {
        pointer_main_key(t)
    } else if numpad_main_key(t) is Some {
        numpad_main_key(t)
    } else if editing_main_key(t) is Some {
        editing_main_key(t)
    } else {
        symbol_main_key(t)
    }
}

fn named_main_key_lookup(t: &str) -> (r: Option<(i32, String)>)
    ensures
        key_entry_view(r) == named_main_key(t@),
{
    let r = pointer_main_key_lookup(t);
    if r.is_some() {
        return r;
    }
    let r = numpad_main_key_lookup(t);
    if r.is_some() {
        return r;
    }
    let r = editing_main_key_lookup(t);
    if r.is_some() {
        return r;
    }
    symbol_main_key_lookup(t)
}

/// A function key `f1` to `f24`: an `f`, at most three bytes in all, and a
/// number that `i32::from_str` reads in 1..=24.
pub open spec fn function_key(lower: Seq<char>) -> Option<i32> {
    if lower.len() > 0 && lower[0] == 'f' && encode_utf8(lower).len() <= 3 {
        match spec_parse_i32(lower.drop_first()) {
            Some(n) => if 1 <= n <= 24 {
                Some((VK_F1 + n - 1) as i32)
            } else {
                None
            },
            None => None,
        }
    } else {
        None
    }
}

/// The message for a key that is not recognized.
pub open spec fn unrecognized_key_message(token: Seq<char>, original: Seq<char>) -> Seq<char> {
    "Couldn't recognize '"@ + token + "' as a valid key in '"@ + original + "'"@
}

/// The main key that `token` names within the hotkey `original`: its code
/// and the name kept for it. The token is trimmed and lowercased first.
/// After `key` or `digit` a one-byte remainder is read as a key on its own;
/// that remainder is read without this prefix rule, since one byte cannot
/// carry a prefix.
pub open spec fn main_key_result(token: Seq<char>, original: Seq<char>, allow_prefix: bool) -> Result<
    (i32, Seq<char>),
    Seq<char>,
>
    decreases (if allow_prefix { 1nat } else { 0nat }),
{
    let lower = lowercased(trim(token));
    let bytes = encode_utf8(lower);
    if named_main_key(lower) is Some {
        Ok(named_main_key(lower)->0)
    } else if function_key(lower) is Some {
        Ok((function_key(lower)->0, lower))
    } else if allow_prefix && has_prefix(lower, "key"@) && encode_utf8(lower.skip("key"@.len() as int)).len() == 1 {
        main_key_result(lower.skip("key"@.len() as int), original, false)
    } else if allow_prefix && has_prefix(lower, "digit"@) && encode_utf8(lower.skip("digit"@.len() as int)).len() == 1 {
        main_key_result(lower.skip("digit"@.len() as int), original, false)
    } else if bytes.len() == 1 && 0x61 <= bytes[0] <= 0x7A {
        Ok(((bytes[0] - 0x20) as i32, lower))
    } else if bytes.len() == 1 && 0x30 <= bytes[0] <= 0x39 {
        Ok((bytes[0] as i32, lower))
    } else {
        Err(unrecognized_key_message(token, original))
    }
}

/// The lowercase form of `token` without its surrounding white space.
fn lowered_token(token: &str) -> (r: String)
    ensures
        r@ == lowercased(trim(token@)),
        !token@.contains('+') ==> !r@.contains('+'),
{
    let chars = chars_of(token);
    let trimmed = trim_chars(&chars);
    proof {
        lemma_trim_within(token@);
        lemma_within_plain(trim(token@), token@);
    }
    let t = string_of(&trimmed);
    to_lowercase(t.as_str())
}

fn main_key_from(token: &str, original: &str, allow_prefix: bool) -> (r: Result<(i32, String), String>)
    ensures
        main_key_view(r) == main_key_result(token@, original@, allow_prefix),
        !token@.contains('+') ==> (r matches Ok(k) ==> !k.1@.contains('+')),
    decreases (if allow_prefix { 1nat } else { 0nat }),
{
    let lower = lowered_token(token);
    let l = lower.as_str();
    let named = named_main_key_lookup(l);
    if let Some(entry) = named {
        proof {
            lemma_table_reads_back(l@);
            reveal(key_reads_back);
        }
        return Ok(entry);
    }
    let n = l.unicode_len();
    let byte_len = l.as_bytes().len();
    if n > 0 && l.get_char(0) == 'f' && byte_len <= 3 {
        let rest = chars_of(l.substring_char(1, n));
        proof {
            assert(l@.subrange(1, n as int) =~= l@.drop_first());
        }
        if let Some(number) = parse_i32(&rest) {
            if 1 <= number && number <= 24 {
                return Ok((VK_F1 + (number - 1), lower));
            }
        }
    }
    if allow_prefix && starts_with_str(l, "key") {
        let m = "key".unicode_len();
        let letter = l.substring_char(m, n);
        proof {
            assert(letter@ =~= l@.skip(m as int));
            if letter@.contains('+') {
                let j = choose|j: int| 0 <= j < letter@.len() && letter@[j] == '+';
                assert(l@[j + m] == '+');
            }
        }
        if letter.as_bytes().len() == 1 {
            return main_key_from(letter, original, false);
        }
    }
    if allow_prefix && starts_with_str(l, "digit") {
        let m = "digit".unicode_len();
        let letter = l.substring_char(m, n);
        proof {
            assert(letter@ =~= l@.skip(m as int));
            if letter@.contains('+') {
                let j = choose|j: int| 0 <= j < letter@.len() && letter@[j] == '+';
                assert(l@[j + m] == '+');
            }
        }
        if letter.as_bytes().len() == 1 {
            return main_key_from(letter, original, false);
        }
    }
    if byte_len == 1 {
        let ch = l.as_bytes()[0];
        if 0x61 <= ch && ch <= 0x7A {
            return Ok(((ch - 0x20) as i32, lower));
        }
        if 0x30 <= ch && ch <= 0x39 {
            return Ok((ch as i32, lower));
        }
    }
    let msg = String::from_str("Couldn't recognize '").concat(token).concat(
        "' as a valid key in '",
    ).concat(original).concat("'");
    Err(msg)
}

/// The main key that `token` names within the hotkey `original_hotkey`: its
/// virtual-key code (or pseudo code) and the name kept for it, or the message
/// that the token is not a key.
pub fn parse_hotkey_main_key(token: &str, original_hotkey: &str) -> (r: Result<(i32, String), String>)
    ensures
        main_key_view(r) == main_key_result(token@, original_hotkey@, true),
{
    main_key_from(token, original_hotkey, true)
}

/// `value` trimmed and lowercased, with the other names of the modifiers
/// replaced by `ctrl` and `super`.
pub open spec fn normalized_hotkey(value: Seq<char>) -> Seq<char> {
    replace_all(
        replace_all(
            replace_all(
                replace_all(lowercased(trim(value)), "control"@, "ctrl"@),
                "command"@,
                "super"@,
            ),
            "meta"@,
            "super"@,
        ),
        "win"@,
        "super"@,
    )
}

/// The hotkey text trimmed and lowercased, with `control` written `ctrl` and
/// `command`, `meta` and `win` written `super`.
pub fn normalize_hotkey(value: &str) -> (r: String)
    ensures
        r@ == normalized_hotkey(value@),
{
    let lower = lowered_token(value);
    let v = chars_of(lower.as_str());
    proof {
        reveal_strlit("control");
        reveal_strlit("command");
        reveal_strlit("meta");
        reveal_strlit("win");
    }
    let v = replace_chars(&v, "control", "ctrl");
    let v = replace_chars(&v, "command", "super");
    let v = replace_chars(&v, "meta", "super");
    let v = replace_chars(&v, "win", "super");
    string_of(&v)
}

/// A hotkey: the modifiers it needs and its main key.
#[derive(Clone, Debug, PartialEq, Eq)]
pub struct HotkeyBinding {
    pub ctrl: bool,
    pub alt: bool,
    pub shift: bool,
    pub super_key: bool,
    pub main_vk: i32,
    pub key_token: String,
}

/// A binding as plain values: ctrl, alt, shift, super, code, key name.
pub type BindingView = (bool, bool, bool, bool, i32, Seq<char>);

impl View for HotkeyBinding {
    type V = BindingView;

    open spec fn view(&self) -> BindingView {
        (self.ctrl, self.alt, self.shift, self.super_key, self.main_vk, self.key_token@)
    }
}

/// A parse result as plain values.
pub open spec fn binding_result_view(r: Result<HotkeyBinding, String>) -> Result<BindingView, Seq<char>> {
    match r {
        Ok(b) => Ok(b@),
        Err(e) => Err(e@),
    }
}

/// The modifiers read so far and the main key, if one was read.
pub type ParseState = (bool, bool, bool, bool, Option<(i32, Seq<char>)>);

/// The message for a hotkey with an empty token.
pub open spec fn empty_token_message(hotkey: Seq<char>) -> Seq<char> {
    "Invalid hotkey '"@ + hotkey + "': found empty key token"@
}

/// The message for a hotkey with more than one main key.
pub open spec fn two_main_keys_message(hotkey: Seq<char>) -> Seq<char> {
    "Invalid hotkey '"@ + hotkey + "': use modifiers first and only one main key"@
}

/// The message for a hotkey without a main key.
pub open spec fn missing_main_key_message(hotkey: Seq<char>) -> Seq<char> {
    "Invalid hotkey '"@ + hotkey + "': missing main key"@
}

/// Reads the `+`-separated tokens of `hotkey` in order: modifiers set their
/// flag, any other token is read as the main key, of which there may be one.
pub open spec fn read_tokens(tokens: Seq<Seq<char>>, hotkey: Seq<char>, st: ParseState) -> Result<
    ParseState,
    Seq<char>,
>
    decreases tokens.len(),
{
    if tokens.len() == 0 {
        Ok(st)
    } else {
        let t = trim(tokens[0]);
        let rest = tokens.drop_first();
        if t.len() == 0 {
            Err(empty_token_message(hotkey))
        } else if t == "alt"@ || t == "option"@ {
            read_tokens(rest, hotkey, (st.0, true, st.2, st.3, st.4))
        } else if t == "ctrl"@ || t == "control"@ {
            read_tokens(rest, hotkey, (true, st.1, st.2, st.3, st.4))
        } else if t == "shift"@ {
            read_tokens(rest, hotkey, (st.0, st.1, true, st.3, st.4))
        } else if t == "super"@ || t == "command"@ || t == "cmd"@ || t == "meta"@ || t == "win"@ {
            read_tokens(rest, hotkey, (st.0, st.1, st.2, true, st.4))
        } else {
            match main_key_result(t, hotkey, true) {
                Err(e) => Err(e),
                Ok(key) => if st.4 is Some {
                    Err(two_main_keys_message(hotkey))
                } else {
                    read_tokens(rest, hotkey, (st.0, st.1, st.2, st.3, Some(key)))
                },
            }
        }
    }
}

/// What parsing `hotkey` gives: its normalized tokens read in order, and an
/// error when a token is empty or not a key, when there are two main keys,
/// or when there is none.
pub open spec fn parsed_hotkey(hotkey: Seq<char>) -> Result<BindingView, Seq<char>> {
    match read_tokens(split_on(normalized_hotkey(hotkey), '+'), hotkey, (false, false, false, false, None)) {
        Err(e) => Err(e),
        Ok(st) => match st.4 {
            Some(key) => Ok((st.0, st.1, st.2, st.3, key.0, key.1)),
            None => Err(missing_main_key_message(hotkey)),
        },
    }
}

fn invalid_hotkey_message(hotkey: &str, reason: &str) -> (r: String)
    ensures
        r@ == "Invalid hotkey '"@ + hotkey@ + reason@,
{
    String::from_str("Invalid hotkey '").concat(hotkey).concat(reason)
}

/// Parses a hotkey such as `ctrl+shift+f6`.
pub fn parse_hotkey_binding(hotkey: &str) -> (r: Result<HotkeyBinding, String>)
    ensures
        binding_result_view(r) == parsed_hotkey(hotkey@),
        r matches Ok(b) ==> parsed_hotkey(formatted_binding(b@)) == Ok::<BindingView, Seq<char>>(b@),
{
    let normalized = normalize_hotkey(hotkey);
    let chars = chars_of(normalized.as_str());
    let tokens = split_chars(&chars, '+');
    let ghost all = views(tokens@);
    proof {
        lemma_split_pieces(normalized@, '+');
    }
    let mut ctrl = false;
    let mut alt = false;
    let mut shift = false;
    let mut super_key = false;
    let mut main_key: Option<(i32, String)> = None;
    let mut i: usize = 0;
    proof {
        assert(all.skip(0) =~= all);
    }
    while i < tokens.len()
        invariant
            all == views(tokens@),
            all == split_on(normalized_hotkey(hotkey@), '+'),
            all.len() == tokens@.len(),
            i <= tokens@.len(),
            read_tokens(all, hotkey@, (false, false, false, false, None)) == read_tokens(
                all.skip(i as int),
                hotkey@,
                (ctrl, alt, shift, super_key, key_entry_view(main_key)),
            ),
            forall|j: int| 0 <= j < all.len() ==> !(#[trigger] all[j]).contains('+'),
            main_key matches Some(k) ==> !k.1@.contains('+'),
        decreases tokens@.len() - i,
    {
        proof {
            assert(all.skip(i as int).drop_first() =~= all.skip(i + 1));
            assert(all.skip(i as int)[0] == tokens@[i as int]@);
        }
        let token = trim_chars(&tokens[i]);
        proof {
            assert(all[i as int] == tokens@[i as int]@);
            lemma_trim_within(tokens@[i as int]@);
            lemma_within_plain(token@, tokens@[i as int]@);
        }
        if token.len() == 0 {
            return Err(invalid_hotkey_message(hotkey, "': found empty key token"));
        }
        if chars_eq(&token, "alt") || chars_eq(&token, "option") {
            alt = true;
        } else if chars_eq(&token, "ctrl") || chars_eq(&token, "control") {
            ctrl = true;
        } else if chars_eq(&token, "shift") {
            shift = true;
        } else if chars_eq(&token, "super") || chars_eq(&token, "command") || chars_eq(&token, "cmd")
            || chars_eq(&token, "meta") || chars_eq(&token, "win") {
            super_key = true;
        } else {
            let text = string_of(&token);
            match main_key_from(text.as_str(), hotkey, true) {
                Err(e) => {
                    return Err(e);
                },
                Ok(key) => {
                    if main_key.is_some() {
                        return Err(
                            invalid_hotkey_message(
                                hotkey,
                                "': use modifiers first and only one main key",
                            ),
                        );
                    }
                    main_key = Some(key);
                },
            }
        }
        i = i + 1;
    }
    proof {
        assert(all.skip(i as int) =~= Seq::<Seq<char>>::empty());
    }
    match main_key {
        Some((main_vk, key_token)) => {
            let b = HotkeyBinding { ctrl, alt, shift, super_key, main_vk, key_token };
            proof {
                lemma_parse_format_round_trip(hotkey@, b@);
            }
            Ok(b)
        },
        None => Err(invalid_hotkey_message(hotkey, "': missing main key")),
    }
}

/// The text of a binding: its modifiers in the order ctrl, alt, shift,
/// super, each followed by `+`, then the key name.
pub open spec fn formatted_binding(b: BindingView) -> Seq<char> {
    (if b.0 { "ctrl+"@ } else { seq![] }) + (if b.1 { "alt+"@ } else { seq![] }) + (if b.2 {
        "shift+"@
    } else {
        seq![]
    }) + (if b.3 { "super+"@ } else { seq![] }) + b.5
}

/// Whether `t` is one of the words that name a modifier.
pub open spec fn is_modifier_word(t: Seq<char>) -> bool {
    ||| t == "alt"@
    ||| t == "option"@
    ||| t == "ctrl"@
    ||| t == "control"@
    ||| t == "shift"@
    ||| t == "super"@
    ||| t == "command"@
    ||| t == "cmd"@
    ||| t == "meta"@
    ||| t == "win"@
}

/// The text `word` followed by `+`, when `on`.
pub open spec fn modifier_part(on: bool, word: Seq<char>) -> Seq<char> {
    if on {
        word + seq!['+']
    } else {
        seq![]
    }
}

/// The tokens `[word]` when `on`.
pub open spec fn modifier_token(on: bool, word: Seq<char>) -> Seq<Seq<char>> {
    if on {
        seq![word]
    } else {
        seq![]
    }
}

proof fn lemma_modifier_split(on: bool, word: Seq<char>, rest: Seq<char>)
    requires
        !word.contains('+'),
    ensures
        split_on(modifier_part(on, word) + rest, '+') == modifier_token(on, word) + split_on(rest, '+'),
{
    if on {
        lemma_split_first_piece(word, rest, '+');
    } else {
        assert(modifier_part(on, word) + rest =~= rest);
        assert(modifier_token(on, word) + split_on(rest, '+') =~= split_on(rest, '+'));
    }
}

proof fn lemma_trim_word(w: Seq<char>)
    requires
        w.len() > 0,
        !crate::text::is_white_space(w[0]),
        !crate::text::is_white_space(w.last()),
    ensures
        trim(w) == w,
{
    assert(trim_start(w) == w);
}

/// Reading a modifier token sets its flag.
proof fn lemma_read_modifier(
    which: int,
    on: bool,
    rest: Seq<Seq<char>>,
    hotkey: Seq<char>,
    st: ParseState,
)
    requires
        0 <= which < 4,
    ensures
        ({
            let word = if which == 0 {
                "ctrl"@
            } else if which == 1 {
                "alt"@
            } else if which == 2 {
                "shift"@
            } else {
                "super"@
            };
            let st2 = if !on {
                st
            } else if which == 0 {
                (true, st.1, st.2, st.3, st.4)
            } else if which == 1 {
                (st.0, true, st.2, st.3, st.4)
            } else if which == 2 {
                (st.0, st.1, true, st.3, st.4)
            } else {
                (st.0, st.1, st.2, true, st.4)
            };
            read_tokens(modifier_token(on, word) + rest, hotkey, st) == read_tokens(rest, hotkey, st2)
        }),
{
    reveal_strlit("alt");
    reveal_strlit("option");
    reveal_strlit("ctrl");
    reveal_strlit("control");
    reveal_strlit("shift");
    reveal_strlit("super");
    reveal_strlit("command");
    reveal_strlit("cmd");
    reveal_strlit("meta");
    reveal_strlit("win");
    let word = if which == 0 {
        "ctrl"@
    } else if which == 1 {
        "alt"@
    } else if which == 2 {
        "shift"@
    } else {
        "super"@
    };
    let t = modifier_token(on, word) + rest;
    if on {
        assert(t[0] == word);
        assert(t.drop_first() =~= rest);
        lemma_trim_word(word);
    } else {
        assert(t =~= rest);
    }
}

/// Whether `s` comes out of the renaming of modifier names unchanged.
pub open spec fn keeps_modifier_names(s: Seq<char>) -> bool {
    &&& replace_all(s, "control"@, "ctrl"@) == s
    &&& replace_all(s, "command"@, "super"@) == s
    &&& replace_all(s, "meta"@, "super"@) == s
    &&& replace_all(s, "win"@, "super"@) == s
}

/// Whether the key name `name` reads back as key `vk`: written into a hotkey
/// it is one ASCII token without white space at its ends and without `+`,
/// and its lowercase form is no modifier word, survives the renaming of
/// modifiers and reads as `vk` and `name` again.
#[verifier::opaque]
pub open spec fn key_reads_back(vk: i32, name: Seq<char>) -> bool {
    let lname = ascii_lowercase(name);
    &&& name.len() > 0
    &&& all_ascii(name)
    &&& !name.contains('+')
    &&& !is_white_space(name[0])
    &&& !is_white_space(name.last())
    &&& !is_white_space(lname[0])
    &&& !is_white_space(lname.last())
    &&& !is_modifier_word(lname)
    &&& keeps_modifier_names(lname)
    &&& forall|o: Seq<char>|
        #[trigger] main_key_result(lname, o, true) == Ok::<(i32, Seq<char>), Seq<char>>((vk, name))
}

/// Whether `s` lacks a character of `p`, or is shorter than it; then `p`
/// cannot occur in `s`.
pub open spec fn lacks_some_char(s: Seq<char>, p: Seq<char>) -> bool {
    s.len() < p.len() || exists|j: int| 0 <= j < p.len() && !s.contains(#[trigger] p[j])
}

proof fn lemma_replace_lacking(s: Seq<char>, from: Seq<char>, to: Seq<char>)
    requires
        lacks_some_char(s, from),
    ensures
        replace_all(s, from, to) == s,
{
    if s.len() < from.len() {
        lemma_replace_short(s, from, to);
    } else {
        let j = choose|j: int| 0 <= j < from.len() && !s.contains(#[trigger] from[j]);
        assert(from.contains(from[j]));
        lemma_replace_missing_char(s, from, to, from[j]);
    }
}

/// The characters of the modifier names that get renamed.
proof fn lemma_pattern_chars()
    ensures
        "control"@.len() == 7,
        "command"@.len() == 7,
        "meta"@.len() == 4,
        "win"@.len() == 3,
        "control"@[0] == 'c',
        "control"@[1] == 'o',
        "control"@[2] == 'n',
        "control"@[3] == 't',
        "control"@[4] == 'r',
        "control"@[5] == 'o',
        "control"@[6] == 'l',
        "command"@[0] == 'c',
        "command"@[1] == 'o',
        "command"@[2] == 'm',
        "command"@[3] == 'm',
        "command"@[4] == 'a',
        "command"@[5] == 'n',
        "command"@[6] == 'd',
        "meta"@[0] == 'm',
        "meta"@[1] == 'e',
        "meta"@[2] == 't',
        "meta"@[3] == 'a',
        "win"@[0] == 'w',
        "win"@[1] == 'i',
        "win"@[2] == 'n',
{
    reveal_strlit("control");
    reveal_strlit("command");
    reveal_strlit("meta");
    reveal_strlit("win");
}

/// A text that lacks a character of each modifier name keeps the modifier
/// names as they are.
proof fn lemma_keeps_names(s: Seq<char>)
    requires
        lacks_some_char(s, "control"@),
        lacks_some_char(s, "command"@),
        lacks_some_char(s, "meta"@),
        lacks_some_char(s, "win"@),
    ensures
        keeps_modifier_names(s),
{
    lemma_replace_lacking(s, "control"@, "ctrl"@);
    lemma_replace_lacking(s, "command"@, "super"@);
    lemma_replace_lacking(s, "meta"@, "super"@);
    lemma_replace_lacking(s, "win"@, "super"@);
}

/// A modifier part and what follows it keep the modifier names when each
/// does.
proof fn lemma_keeps_after_part(on: bool, word: Seq<char>, rest: Seq<char>)
    requires
        keeps_modifier_names(modifier_part(on, word)),
        keeps_modifier_names(rest),
    ensures
        keeps_modifier_names(modifier_part(on, word) + rest),
{
    reveal_strlit("control");
    reveal_strlit("command");
    reveal_strlit("meta");
    reveal_strlit("win");
    if on {
        let x = modifier_part(on, word);
        assert(x.last() == '+');
        assert(!"control"@.contains('+'));
        assert(!"command"@.contains('+'));
        assert(!"meta"@.contains('+'));
        assert(!"win"@.contains('+'));
        lemma_replace_after_plus(x, rest, "control"@, "ctrl"@);
        lemma_replace_after_plus(x, rest, "command"@, "super"@);
        lemma_replace_after_plus(x, rest, "meta"@, "super"@);
        lemma_replace_after_plus(x, rest, "win"@, "super"@);
    } else {
        assert(modifier_part(on, word) + rest =~= rest);
    }
}

/// A modifier part is ASCII, already lowercase and keeps the modifier names.
proof fn lemma_modifier_part_plain(on: bool, which: int)
    requires
        0 <= which < 4,
    ensures
        ({
            let word = if which == 0 {
                "ctrl"@
            } else if which == 1 {
                "alt"@
            } else if which == 2 {
                "shift"@
            } else {
                "super"@
            };
            &&& all_ascii(modifier_part(on, word))
            &&& ascii_lowercase(modifier_part(on, word)) == modifier_part(on, word)
            &&& keeps_modifier_names(modifier_part(on, word))
            &&& !word.contains('+')
            &&& word.len() > 0
            &&& word[0] != ' '
        }),
{
    reveal_strlit("ctrl");
    reveal_strlit("alt");
    reveal_strlit("shift");
    reveal_strlit("super");
    let word = if which == 0 {
        "ctrl"@
    } else if which == 1 {
        "alt"@
    } else if which == 2 {
        "shift"@
    } else {
        "super"@
    };
    let x = modifier_part(on, word);
    assert(ascii_lowercase(x) =~= x);
    lemma_pattern_chars();
    assert(!x.contains('o'));
    assert(!x.contains('m'));
    assert(!x.contains('w'));
    lemma_keeps_names(x);
}

/// A lowercase ASCII key name of the table, without white space at its
/// ends, reads as its table entry.
proof fn lemma_main_key_named(x: Seq<char>)
    requires
        named_main_key(x) is Some,
        all_ascii(x),
        trim(x) == x,
        ascii_lowercase(x) == x,
    ensures
        forall|o: Seq<char>|
            #[trigger] main_key_result(x, o, true) == Ok::<(i32, Seq<char>), Seq<char>>(named_main_key(x)->0),
{
    assert(lowercased(trim(x)) == x);
}

/// The characters of the texts that the key table and the modifier words
/// use.
proof fn lemma_key_table_texts()
    ensures
        "mouseleft"@ == seq!['m', 'o', 'u', 's', 'e', 'l', 'e', 'f', 't'],
        "mouse1"@ == seq!['m', 'o', 'u', 's', 'e', '1'],
        "mouseright"@ == seq!['m', 'o', 'u', 's', 'e', 'r', 'i', 'g', 'h', 't'],
        "mouse2"@ == seq!['m', 'o', 'u', 's', 'e', '2'],
        "mousemiddle"@ == seq!['m', 'o', 'u', 's', 'e', 'm', 'i', 'd', 'd', 'l', 'e'],
        "mouse3"@ == seq!['m', 'o', 'u', 's', 'e', '3'],
        "scrollbutton"@ == seq!['s', 'c', 'r', 'o', 'l', 'l', 'b', 'u', 't', 't', 'o', 'n'],
        "middleclick"@ == seq!['m', 'i', 'd', 'd', 'l', 'e', 'c', 'l', 'i', 'c', 'k'],
        "mouse4"@ == seq!['m', 'o', 'u', 's', 'e', '4'],
        "mouseback"@ == seq!['m', 'o', 'u', 's', 'e', 'b', 'a', 'c', 'k'],
        "xbutton1"@ == seq!['x', 'b', 'u', 't', 't', 'o', 'n', '1'],
        "mouse5"@ == seq!['m', 'o', 'u', 's', 'e', '5'],
        "mouseforward"@ == seq!['m', 'o', 'u', 's', 'e', 'f', 'o', 'r', 'w', 'a', 'r', 'd'],
        "xbutton2"@ == seq!['x', 'b', 'u', 't', 't', 'o', 'n', '2'],
        "scrollup"@ == seq!['s', 'c', 'r', 'o', 'l', 'l', 'u', 'p'],
        "wheelup"@ == seq!['w', 'h', 'e', 'e', 'l', 'u', 'p'],
        "scrolldown"@ == seq!['s', 'c', 'r', 'o', 'l', 'l', 'd', 'o', 'w', 'n'],
        "wheeldown"@ == seq!['w', 'h', 'e', 'e', 'l', 'd', 'o', 'w', 'n'],
        "numpad0"@ == seq!['n', 'u', 'm', 'p', 'a', 'd', '0'],
        "numpad1"@ == seq!['n', 'u', 'm', 'p', 'a', 'd', '1'],
        "numpad2"@ == seq!['n', 'u', 'm', 'p', 'a', 'd', '2'],
        "numpad3"@ == seq!['n', 'u', 'm', 'p', 'a', 'd', '3'],
        "numpad4"@ == seq!['n', 'u', 'm', 'p', 'a', 'd', '4'],
        "numpad5"@ == seq!['n', 'u', 'm', 'p', 'a', 'd', '5'],
        "numpad6"@ == seq!['n', 'u', 'm', 'p', 'a', 'd', '6'],
        "numpad7"@ == seq!['n', 'u', 'm', 'p', 'a', 'd', '7'],
        "numpad8"@ == seq!['n', 'u', 'm', 'p', 'a', 'd', '8'],
        "numpad9"@ == seq!['n', 'u', 'm', 'p', 'a', 'd', '9'],
        "numpadadd"@ == seq!['n', 'u', 'm', 'p', 'a', 'd', 'a', 'd', 'd'],
        "numpadsubtract"@ == seq!['n', 'u', 'm', 'p', 'a', 'd', 's', 'u', 'b', 't', 'r', 'a', 'c', 't'],
        "numpadmultiply"@ == seq!['n', 'u', 'm', 'p', 'a', 'd', 'm', 'u', 'l', 't', 'i', 'p', 'l', 'y'],
        "numpaddivide"@ == seq!['n', 'u', 'm', 'p', 'a', 'd', 'd', 'i', 'v', 'i', 'd', 'e'],
        "numpaddecimal"@ == seq!['n', 'u', 'm', 'p', 'a', 'd', 'd', 'e', 'c', 'i', 'm', 'a', 'l'],
        "numpadenter"@ == seq!['n', 'u', 'm', 'p', 'a', 'd', 'e', 'n', 't', 'e', 'r'],
        "IntlBackslash"@ == seq!['I', 'n', 't', 'l', 'B', 'a', 'c', 'k', 's', 'l', 'a', 's', 'h'],
        "<"@ == seq!['<'],
        ">"@ == seq!['>'],
        "intlbackslash"@ == seq!['i', 'n', 't', 'l', 'b', 'a', 'c', 'k', 's', 'l', 'a', 's', 'h'],
        "oem102"@ == seq!['o', 'e', 'm', '1', '0', '2'],
        "nonusbackslash"@ == seq!['n', 'o', 'n', 'u', 's', 'b', 'a', 'c', 'k', 's', 'l', 'a', 's', 'h'],
        "space"@ == seq!['s', 'p', 'a', 'c', 'e'],
        "spacebar"@ == seq!['s', 'p', 'a', 'c', 'e', 'b', 'a', 'r'],
        "tab"@ == seq!['t', 'a', 'b'],
        "enter"@ == seq!['e', 'n', 't', 'e', 'r'],
        "backspace"@ == seq!['b', 'a', 'c', 'k', 's', 'p', 'a', 'c', 'e'],
        "delete"@ == seq!['d', 'e', 'l', 'e', 't', 'e'],
        "insert"@ == seq!['i', 'n', 's', 'e', 'r', 't'],
        "home"@ == seq!['h', 'o', 'm', 'e'],
        "end"@ == seq!['e', 'n', 'd'],
        "pageup"@ == seq!['p', 'a', 'g', 'e', 'u', 'p'],
        "pagedown"@ == seq!['p', 'a', 'g', 'e', 'd', 'o', 'w', 'n'],
        "up"@ == seq!['u', 'p'],
        "down"@ == seq!['d', 'o', 'w', 'n'],
        "left"@ == seq!['l', 'e', 'f', 't'],
        "right"@ == seq!['r', 'i', 'g', 'h', 't'],
        "escape"@ == seq!['e', 's', 'c', 'a', 'p', 'e'],
        "esc"@ == seq!['e', 's', 'c'],
        "/"@ == seq!['/'],
        "slash"@ == seq!['s', 'l', 'a', 's', 'h'],
        "\\"@ == seq!['\\'],
        "backslash"@ == seq!['b', 'a', 'c', 'k', 's', 'l', 'a', 's', 'h'],
        ";"@ == seq![';'],
        "semicolon"@ == seq!['s', 'e', 'm', 'i', 'c', 'o', 'l', 'o', 'n'],
        "'"@ == seq!['\''],
        "quote"@ == seq!['q', 'u', 'o', 't', 'e'],
        "["@ == seq!['['],
        "bracketleft"@ == seq!['b', 'r', 'a', 'c', 'k', 'e', 't', 'l', 'e', 'f', 't'],
        "]"@ == seq![']'],
        "bracketright"@ == seq!['b', 'r', 'a', 'c', 'k', 'e', 't', 'r', 'i', 'g', 'h', 't'],
        "-"@ == seq!['-'],
        "minus"@ == seq!['m', 'i', 'n', 'u', 's'],
        "="@ == seq!['='],
        "equal"@ == seq!['e', 'q', 'u', 'a', 'l'],
        "`"@ == seq!['`'],
        "backquote"@ == seq!['b', 'a', 'c', 'k', 'q', 'u', 'o', 't', 'e'],
        ","@ == seq![','],
        "comma"@ == seq!['c', 'o', 'm', 'm', 'a'],
        "."@ == seq!['.'],
        "period"@ == seq!['p', 'e', 'r', 'i', 'o', 'd'],
        "alt"@ == seq!['a', 'l', 't'],
        "option"@ == seq!['o', 'p', 't', 'i', 'o', 'n'],
        "ctrl"@ == seq!['c', 't', 'r', 'l'],
        "control"@ == seq!['c', 'o', 'n', 't', 'r', 'o', 'l'],
        "shift"@ == seq!['s', 'h', 'i', 'f', 't'],
        "super"@ == seq!['s', 'u', 'p', 'e', 'r'],
        "command"@ == seq!['c', 'o', 'm', 'm', 'a', 'n', 'd'],
        "cmd"@ == seq!['c', 'm', 'd'],
        "meta"@ == seq!['m', 'e', 't', 'a'],
        "win"@ == seq!['w', 'i', 'n'],
        "key"@ == seq!['k', 'e', 'y'],
        "digit"@ == seq!['d', 'i', 'g', 'i', 't'],
{
    reveal_strlit("mouseleft");
    reveal_strlit("mouse1");
    reveal_strlit("mouseright");
    reveal_strlit("mouse2");
    reveal_strlit("mousemiddle");
    reveal_strlit("mouse3");
    reveal_strlit("scrollbutton");
    reveal_strlit("middleclick");
    reveal_strlit("mouse4");
    reveal_strlit("mouseback");
    reveal_strlit("xbutton1");
    reveal_strlit("mouse5");
    reveal_strlit("mouseforward");
    reveal_strlit("xbutton2");
    reveal_strlit("scrollup");
    reveal_strlit("wheelup");
    reveal_strlit("scrolldown");
    reveal_strlit("wheeldown");
    reveal_strlit("numpad0");
    reveal_strlit("numpad1");
    reveal_strlit("numpad2");
    reveal_strlit("numpad3");
    reveal_strlit("numpad4");
    reveal_strlit("numpad5");
    reveal_strlit("numpad6");
    reveal_strlit("numpad7");
    reveal_strlit("numpad8");
    reveal_strlit("numpad9");
    reveal_strlit("numpadadd");
    reveal_strlit("numpadsubtract");
    reveal_strlit("numpadmultiply");
    reveal_strlit("numpaddivide");
    reveal_strlit("numpaddecimal");
    reveal_strlit("numpadenter");
    reveal_strlit("IntlBackslash");
    reveal_strlit("<");
    reveal_strlit(">");
    reveal_strlit("intlbackslash");
    reveal_strlit("oem102");
    reveal_strlit("nonusbackslash");
    reveal_strlit("space");
    reveal_strlit("spacebar");
    reveal_strlit("tab");
    reveal_strlit("enter");
    reveal_strlit("backspace");
    reveal_strlit("delete");
    reveal_strlit("insert");
    reveal_strlit("home");
    reveal_strlit("end");
    reveal_strlit("pageup");
    reveal_strlit("pagedown");
    reveal_strlit("up");
    reveal_strlit("down");
    reveal_strlit("left");
    reveal_strlit("right");
    reveal_strlit("escape");
    reveal_strlit("esc");
    reveal_strlit("/");
    reveal_strlit("slash");
    reveal_strlit("\\");
    reveal_strlit("backslash");
    reveal_strlit(";");
    reveal_strlit("semicolon");
    reveal_strlit("'");
    reveal_strlit("quote");
    reveal_strlit("[");
    reveal_strlit("bracketleft");
    reveal_strlit("]");
    reveal_strlit("bracketright");
    reveal_strlit("-");
    reveal_strlit("minus");
    reveal_strlit("=");
    reveal_strlit("equal");
    reveal_strlit("`");
    reveal_strlit("backquote");
    reveal_strlit(",");
    reveal_strlit("comma");
    reveal_strlit(".");
    reveal_strlit("period");
    reveal_strlit("alt");
    reveal_strlit("option");
    reveal_strlit("ctrl");
    reveal_strlit("control");
    reveal_strlit("shift");
    reveal_strlit("super");
    reveal_strlit("command");
    reveal_strlit("cmd");
    reveal_strlit("meta");
    reveal_strlit("win");
    reveal_strlit("key");
    reveal_strlit("digit");
    assert("mouseleft"@ =~= seq!['m', 'o', 'u', 's', 'e', 'l', 'e', 'f', 't']);
    assert("mouse1"@ =~= seq!['m', 'o', 'u', 's', 'e', '1']);
    assert("mouseright"@ =~= seq!['m', 'o', 'u', 's', 'e', 'r', 'i', 'g', 'h', 't']);
    assert("mouse2"@ =~= seq!['m', 'o', 'u', 's', 'e', '2']);
    assert("mousemiddle"@ =~= seq!['m', 'o', 'u', 's', 'e', 'm', 'i', 'd', 'd', 'l', 'e']);
    assert("mouse3"@ =~= seq!['m', 'o', 'u', 's', 'e', '3']);
    assert("scrollbutton"@ =~= seq!['s', 'c', 'r', 'o', 'l', 'l', 'b', 'u', 't', 't', 'o', 'n']);
    assert("middleclick"@ =~= seq!['m', 'i', 'd', 'd', 'l', 'e', 'c', 'l', 'i', 'c', 'k']);
    assert("mouse4"@ =~= seq!['m', 'o', 'u', 's', 'e', '4']);
    assert("mouseback"@ =~= seq!['m', 'o', 'u', 's', 'e', 'b', 'a', 'c', 'k']);
    assert("xbutton1"@ =~= seq!['x', 'b', 'u', 't', 't', 'o', 'n', '1']);
    assert("mouse5"@ =~= seq!['m', 'o', 'u', 's', 'e', '5']);
    assert("mouseforward"@ =~= seq!['m', 'o', 'u', 's', 'e', 'f', 'o', 'r', 'w', 'a', 'r', 'd']);
    assert("xbutton2"@ =~= seq!['x', 'b', 'u', 't', 't', 'o', 'n', '2']);
    assert("scrollup"@ =~= seq!['s', 'c', 'r', 'o', 'l', 'l', 'u', 'p']);
    assert("wheelup"@ =~= seq!['w', 'h', 'e', 'e', 'l', 'u', 'p']);
    assert("scrolldown"@ =~= seq!['s', 'c', 'r', 'o', 'l', 'l', 'd', 'o', 'w', 'n']);
    assert("wheeldown"@ =~= seq!['w', 'h', 'e', 'e', 'l', 'd', 'o', 'w', 'n']);
    assert("numpad0"@ =~= seq!['n', 'u', 'm', 'p', 'a', 'd', '0']);
    assert("numpad1"@ =~= seq!['n', 'u', 'm', 'p', 'a', 'd', '1']);
    assert("numpad2"@ =~= seq!['n', 'u', 'm', 'p', 'a', 'd', '2']);
    assert("numpad3"@ =~= seq!['n', 'u', 'm', 'p', 'a', 'd', '3']);
    assert("numpad4"@ =~= seq!['n', 'u', 'm', 'p', 'a', 'd', '4']);
    assert("numpad5"@ =~= seq!['n', 'u', 'm', 'p', 'a', 'd', '5']);
    assert("numpad6"@ =~= seq!['n', 'u', 'm', 'p', 'a', 'd', '6']);
    assert("numpad7"@ =~= seq!['n', 'u', 'm', 'p', 'a', 'd', '7']);
    assert("numpad8"@ =~= seq!['n', 'u', 'm', 'p', 'a', 'd', '8']);
    assert("numpad9"@ =~= seq!['n', 'u', 'm', 'p', 'a', 'd', '9']);
    assert("numpadadd"@ =~= seq!['n', 'u', 'm', 'p', 'a', 'd', 'a', 'd', 'd']);
    assert("numpadsubtract"@ =~= seq!['n', 'u', 'm', 'p', 'a', 'd', 's', 'u', 'b', 't', 'r', 'a', 'c', 't']);
    assert("numpadmultiply"@ =~= seq!['n', 'u', 'm', 'p', 'a', 'd', 'm', 'u', 'l', 't', 'i', 'p', 'l', 'y']);
    assert("numpaddivide"@ =~= seq!['n', 'u', 'm', 'p', 'a', 'd', 'd', 'i', 'v', 'i', 'd', 'e']);
    assert("numpaddecimal"@ =~= seq!['n', 'u', 'm', 'p', 'a', 'd', 'd', 'e', 'c', 'i', 'm', 'a', 'l']);
    assert("numpadenter"@ =~= seq!['n', 'u', 'm', 'p', 'a', 'd', 'e', 'n', 't', 'e', 'r']);
    assert("IntlBackslash"@ =~= seq!['I', 'n', 't', 'l', 'B', 'a', 'c', 'k', 's', 'l', 'a', 's', 'h']);
    assert("<"@ =~= seq!['<']);
    assert(">"@ =~= seq!['>']);
    assert("intlbackslash"@ =~= seq!['i', 'n', 't', 'l', 'b', 'a', 'c', 'k', 's', 'l', 'a', 's', 'h']);
    assert("oem102"@ =~= seq!['o', 'e', 'm', '1', '0', '2']);
    assert("nonusbackslash"@ =~= seq!['n', 'o', 'n', 'u', 's', 'b', 'a', 'c', 'k', 's', 'l', 'a', 's', 'h']);
    assert("space"@ =~= seq!['s', 'p', 'a', 'c', 'e']);
    assert("spacebar"@ =~= seq!['s', 'p', 'a', 'c', 'e', 'b', 'a', 'r']);
    assert("tab"@ =~= seq!['t', 'a', 'b']);
    assert("enter"@ =~= seq!['e', 'n', 't', 'e', 'r']);
    assert("backspace"@ =~= seq!['b', 'a', 'c', 'k', 's', 'p', 'a', 'c', 'e']);
    assert("delete"@ =~= seq!['d', 'e', 'l', 'e', 't', 'e']);
    assert("insert"@ =~= seq!['i', 'n', 's', 'e', 'r', 't']);
    assert("home"@ =~= seq!['h', 'o', 'm', 'e']);
    assert("end"@ =~= seq!['e', 'n', 'd']);
    assert("pageup"@ =~= seq!['p', 'a', 'g', 'e', 'u', 'p']);
    assert("pagedown"@ =~= seq!['p', 'a', 'g', 'e', 'd', 'o', 'w', 'n']);
    assert("up"@ =~= seq!['u', 'p']);
    assert("down"@ =~= seq!['d', 'o', 'w', 'n']);
    assert("left"@ =~= seq!['l', 'e', 'f', 't']);
    assert("right"@ =~= seq!['r', 'i', 'g', 'h', 't']);
    assert("escape"@ =~= seq!['e', 's', 'c', 'a', 'p', 'e']);
    assert("esc"@ =~= seq!['e', 's', 'c']);
    assert("/"@ =~= seq!['/']);
    assert("slash"@ =~= seq!['s', 'l', 'a', 's', 'h']);
    assert("\\"@ =~= seq!['\\']);
    assert("backslash"@ =~= seq!['b', 'a', 'c', 'k', 's', 'l', 'a', 's', 'h']);
    assert(";"@ =~= seq![';']);
    assert("semicolon"@ =~= seq!['s', 'e', 'm', 'i', 'c', 'o', 'l', 'o', 'n']);
    assert("'"@ =~= seq!['\'']);
    assert("quote"@ =~= seq!['q', 'u', 'o', 't', 'e']);
    assert("["@ =~= seq!['[']);
    assert("bracketleft"@ =~= seq!['b', 'r', 'a', 'c', 'k', 'e', 't', 'l', 'e', 'f', 't']);
    assert("]"@ =~= seq![']']);
    assert("bracketright"@ =~= seq!['b', 'r', 'a', 'c', 'k', 'e', 't', 'r', 'i', 'g', 'h', 't']);
    assert("-"@ =~= seq!['-']);
    assert("minus"@ =~= seq!['m', 'i', 'n', 'u', 's']);
    assert("="@ =~= seq!['=']);
    assert("equal"@ =~= seq!['e', 'q', 'u', 'a', 'l']);
    assert("`"@ =~= seq!['`']);
    assert("backquote"@ =~= seq!['b', 'a', 'c', 'k', 'q', 'u', 'o', 't', 'e']);
    assert(","@ =~= seq![',']);
    assert("comma"@ =~= seq!['c', 'o', 'm', 'm', 'a']);
    assert("."@ =~= seq!['.']);
    assert("period"@ =~= seq!['p', 'e', 'r', 'i', 'o', 'd']);
    assert("alt"@ =~= seq!['a', 'l', 't']);
    assert("option"@ =~= seq!['o', 'p', 't', 'i', 'o', 'n']);
    assert("ctrl"@ =~= seq!['c', 't', 'r', 'l']);
    assert("control"@ =~= seq!['c', 'o', 'n', 't', 'r', 'o', 'l']);
    assert("shift"@ =~= seq!['s', 'h', 'i', 'f', 't']);
    assert("super"@ =~= seq!['s', 'u', 'p', 'e', 'r']);
    assert("command"@ =~= seq!['c', 'o', 'm', 'm', 'a', 'n', 'd']);
    assert("cmd"@ =~= seq!['c', 'm', 'd']);
    assert("meta"@ =~= seq!['m', 'e', 't', 'a']);
    assert("win"@ =~= seq!['w', 'i', 'n']);
    assert("key"@ =~= seq!['k', 'e', 'y']);
    assert("digit"@ =~= seq!['d', 'i', 'g', 'i', 't']);
}

/// The key name `mouseleft` reads back.
proof fn lemma_name_reads_back_0()
    ensures
        key_reads_back(VK_LBUTTON, "mouseleft"@),
{
    reveal(key_reads_back);
    lemma_key_table_texts();
    let name = "mouseleft"@;
    let lname = ascii_lowercase(name);
    assert(lname =~= "mouseleft"@);
    assert(named_main_key(lname) == Some::<(i32, Seq<char>)>((VK_LBUTTON, name)));
    lemma_pattern_chars();
    lemma_keeps_names(lname);
    lemma_trim_word(lname);
    lemma_ascii_lowercase_plain(name);
    lemma_main_key_named(lname);
}

/// The key name `mouseright` reads back.
proof fn lemma_name_reads_back_1()
    ensures
        key_reads_back(VK_RBUTTON, "mouseright"@),
{
    reveal(key_reads_back);
    lemma_key_table_texts();
    let name = "mouseright"@;
    let lname = ascii_lowercase(name);
    assert(lname =~= "mouseright"@);
    assert(named_main_key(lname) == Some::<(i32, Seq<char>)>((VK_RBUTTON, name)));
    lemma_pattern_chars();
    lemma_keeps_names(lname);
    lemma_trim_word(lname);
    lemma_ascii_lowercase_plain(name);
    lemma_main_key_named(lname);
}

/// The key name `mousemiddle` reads back.
proof fn lemma_name_reads_back_2()
    ensures
        key_reads_back(VK_MBUTTON, "mousemiddle"@),
{
    reveal(key_reads_back);
    lemma_key_table_texts();
    let name = "mousemiddle"@;
    let lname = ascii_lowercase(name);
    assert(lname =~= "mousemiddle"@);
    assert(named_main_key(lname) == Some::<(i32, Seq<char>)>((VK_MBUTTON, name)));
    lemma_pattern_chars();
    lemma_keeps_names(lname);
    lemma_trim_word(lname);
    lemma_ascii_lowercase_plain(name);
    lemma_main_key_named(lname);
}

/// The key name `mouse4` reads back.
proof fn lemma_name_reads_back_3()
    ensures
        key_reads_back(VK_XBUTTON1, "mouse4"@),
{
    reveal(key_reads_back);
    lemma_key_table_texts();
    let name = "mouse4"@;
    let lname = ascii_lowercase(name);
    assert(lname =~= "mouse4"@);
    assert(lname[5] != "mouse1"@[5]);
    assert(lname[5] != "mouse2"@[5]);
    assert(lname[5] != "mouse3"@[5]);
    assert(named_main_key(lname) == Some::<(i32, Seq<char>)>((VK_XBUTTON1, name)));
    lemma_pattern_chars();
    lemma_keeps_names(lname);
    lemma_trim_word(lname);
    lemma_ascii_lowercase_plain(name);
    lemma_main_key_named(lname);
}

/// The key name `mouse5` reads back.
proof fn lemma_name_reads_back_4()
    ensures
        key_reads_back(VK_XBUTTON2, "mouse5"@),
{
    reveal(key_reads_back);
    lemma_key_table_texts();
    let name = "mouse5"@;
    let lname = ascii_lowercase(name);
    assert(lname =~= "mouse5"@);
    assert(lname[5] != "mouse1"@[5]);
    assert(lname[5] != "mouse2"@[5]);
    assert(lname[5] != "mouse3"@[5]);
    assert(lname[5] != "mouse4"@[5]);
    assert(named_main_key(lname) == Some::<(i32, Seq<char>)>((VK_XBUTTON2, name)));
    lemma_pattern_chars();
    lemma_keeps_names(lname);
    lemma_trim_word(lname);
    lemma_ascii_lowercase_plain(name);
    lemma_main_key_named(lname);
}

/// The key name `scrollup` reads back.
proof fn lemma_name_reads_back_5()
    ensures
        key_reads_back(VK_SCROLL_UP_PSEUDO, "scrollup"@),
{
    reveal(key_reads_back);
    lemma_key_table_texts();
    let name = "scrollup"@;
    let lname = ascii_lowercase(name);
    assert(lname =~= "scrollup"@);
    assert(lname[0] != "xbutton1"@[0]);
    assert(lname[0] != "xbutton2"@[0]);
    assert(named_main_key(lname) == Some::<(i32, Seq<char>)>((VK_SCROLL_UP_PSEUDO, name)));
    lemma_pattern_chars();
    lemma_keeps_names(lname);
    lemma_trim_word(lname);
    lemma_ascii_lowercase_plain(name);
    lemma_main_key_named(lname);
}

/// The key name `scrolldown` reads back.
proof fn lemma_name_reads_back_6()
    ensures
        key_reads_back(VK_SCROLL_DOWN_PSEUDO, "scrolldown"@),
{
    reveal(key_reads_back);
    lemma_key_table_texts();
    let name = "scrolldown"@;
    let lname = ascii_lowercase(name);
    assert(lname =~= "scrolldown"@);
    assert(lname[0] != "mouseright"@[0]);
    assert(named_main_key(lname) == Some::<(i32, Seq<char>)>((VK_SCROLL_DOWN_PSEUDO, name)));
    lemma_pattern_chars();
    lemma_keeps_names(lname);
    lemma_trim_word(lname);
    lemma_ascii_lowercase_plain(name);
    lemma_main_key_named(lname);
}

/// The key name `numpad0` reads back.
proof fn lemma_name_reads_back_7()
    ensures
        key_reads_back(VK_NUMPAD0, "numpad0"@),
{
    reveal(key_reads_back);
    lemma_key_table_texts();
    let name = "numpad0"@;
    let lname = ascii_lowercase(name);
    assert(lname =~= "numpad0"@);
    assert(lname[0] != "wheelup"@[0]);
    assert(named_main_key(lname) == Some::<(i32, Seq<char>)>((VK_NUMPAD0, name)));
    lemma_pattern_chars();
    lemma_keeps_names(lname);
    lemma_trim_word(lname);
    lemma_ascii_lowercase_plain(name);
    lemma_main_key_named(lname);
}

/// The key name `numpad1` reads back.
proof fn lemma_name_reads_back_8()
    ensures
        key_reads_back(VK_NUMPAD1, "numpad1"@),
{
    reveal(key_reads_back);
    lemma_key_table_texts();
    let name = "numpad1"@;
    let lname = ascii_lowercase(name);
    assert(lname =~= "numpad1"@);
    assert(lname[0] != "wheelup"@[0]);
    assert(lname[6] != "numpad0"@[6]);
    assert(named_main_key(lname) == Some::<(i32, Seq<char>)>((VK_NUMPAD1, name)));
    lemma_pattern_chars();
    lemma_keeps_names(lname);
    lemma_trim_word(lname);
    lemma_ascii_lowercase_plain(name);
    lemma_main_key_named(lname);
}

/// The key name `numpad2` reads back.
proof fn lemma_name_reads_back_9()
    ensures
        key_reads_back(VK_NUMPAD2, "numpad2"@),
{
    reveal(key_reads_back);
    lemma_key_table_texts();
    let name = "numpad2"@;
    let lname = ascii_lowercase(name);
    assert(lname =~= "numpad2"@);
    assert(lname[0] != "wheelup"@[0]);
    assert(lname[6] != "numpad0"@[6]);
    assert(lname[6] != "numpad1"@[6]);
    assert(named_main_key(lname) == Some::<(i32, Seq<char>)>((VK_NUMPAD2, name)));
    lemma_pattern_chars();
    lemma_keeps_names(lname);
    lemma_trim_word(lname);
    lemma_ascii_lowercase_plain(name);
    lemma_main_key_named(lname);
}

/// The key name `numpad3` reads back.
proof fn lemma_name_reads_back_10()
    ensures
        key_reads_back(VK_NUMPAD3, "numpad3"@),
{
    reveal(key_reads_back);
    lemma_key_table_texts();
    let name = "numpad3"@;
    let lname = ascii_lowercase(name);
    assert(lname =~= "numpad3"@);
    assert(lname[0] != "wheelup"@[0]);
    assert(lname[6] != "numpad0"@[6]);
    assert(lname[6] != "numpad1"@[6]);
    assert(lname[6] != "numpad2"@[6]);
    assert(named_main_key(lname) == Some::<(i32, Seq<char>)>((VK_NUMPAD3, name)));
    lemma_pattern_chars();
    lemma_keeps_names(lname);
    lemma_trim_word(lname);
    lemma_ascii_lowercase_plain(name);
    lemma_main_key_named(lname);
}

/// The key name `numpad4` reads back.
proof fn lemma_name_reads_back_11()
    ensures
        key_reads_back(VK_NUMPAD4, "numpad4"@),
{
    reveal(key_reads_back);
    lemma_key_table_texts();
    let name = "numpad4"@;
    let lname = ascii_lowercase(name);
    assert(lname =~= "numpad4"@);
    assert(lname[0] != "wheelup"@[0]);
    assert(lname[6] != "numpad0"@[6]);
    assert(lname[6] != "numpad1"@[6]);
    assert(lname[6] != "numpad2"@[6]);
    assert(lname[6] != "numpad3"@[6]);
    assert(named_main_key(lname) == Some::<(i32, Seq<char>)>((VK_NUMPAD4, name)));
    lemma_pattern_chars();
    lemma_keeps_names(lname);
    lemma_trim_word(lname);
    lemma_ascii_lowercase_plain(name);
    lemma_main_key_named(lname);
}

/// The key name `numpad5` reads back.
proof fn lemma_name_reads_back_12()
    ensures
        key_reads_back(VK_NUMPAD5, "numpad5"@),
{
    reveal(key_reads_back);
    lemma_key_table_texts();
    let name = "numpad5"@;
    let lname = ascii_lowercase(name);
    assert(lname =~= "numpad5"@);
    assert(lname[0] != "wheelup"@[0]);
    assert(lname[6] != "numpad0"@[6]);
    assert(lname[6] != "numpad1"@[6]);
    assert(lname[6] != "numpad2"@[6]);
    assert(lname[6] != "numpad3"@[6]);
    assert(lname[6] != "numpad4"@[6]);
    assert(named_main_key(lname) == Some::<(i32, Seq<char>)>((VK_NUMPAD5, name)));
    lemma_pattern_chars();
    lemma_keeps_names(lname);
    lemma_trim_word(lname);
    lemma_ascii_lowercase_plain(name);
    lemma_main_key_named(lname);
}

/// The key name `numpad6` reads back.
proof fn lemma_name_reads_back_13()
    ensures
        key_reads_back(VK_NUMPAD6, "numpad6"@),
{
    reveal(key_reads_back);
    lemma_key_table_texts();
    let name = "numpad6"@;
    let lname = ascii_lowercase(name);
    assert(lname =~= "numpad6"@);
    assert(lname[0] != "wheelup"@[0]);
    assert(lname[6] != "numpad0"@[6]);
    assert(lname[6] != "numpad1"@[6]);
    assert(lname[6] != "numpad2"@[6]);
    assert(lname[6] != "numpad3"@[6]);
    assert(lname[6] != "numpad4"@[6]);
    assert(lname[6] != "numpad5"@[6]);
    assert(named_main_key(lname) == Some::<(i32, Seq<char>)>((VK_NUMPAD6, name)));
    lemma_pattern_chars();
    lemma_keeps_names(lname);
    lemma_trim_word(lname);
    lemma_ascii_lowercase_plain(name);
    lemma_main_key_named(lname);
}

/// The key name `numpad7` reads back.
proof fn lemma_name_reads_back_14()
    ensures
        key_reads_back(VK_NUMPAD7, "numpad7"@),
{
    reveal(key_reads_back);
    lemma_key_table_texts();
    let name = "numpad7"@;
    let lname = ascii_lowercase(name);
    assert(lname =~= "numpad7"@);
    assert(lname[0] != "wheelup"@[0]);
    assert(lname[6] != "numpad0"@[6]);
    assert(lname[6] != "numpad1"@[6]);
    assert(lname[6] != "numpad2"@[6]);
    assert(lname[6] != "numpad3"@[6]);
    assert(lname[6] != "numpad4"@[6]);
    assert(lname[6] != "numpad5"@[6]);
    assert(lname[6] != "numpad6"@[6]);
    assert(named_main_key(lname) == Some::<(i32, Seq<char>)>((VK_NUMPAD7, name)));
    lemma_pattern_chars();
    lemma_keeps_names(lname);
    lemma_trim_word(lname);
    lemma_ascii_lowercase_plain(name);
    lemma_main_key_named(lname);
}

/// The key name `numpad8` reads back.
proof fn lemma_name_reads_back_15()
    ensures
        key_reads_back(VK_NUMPAD8, "numpad8"@),
{
    reveal(key_reads_back);
    lemma_key_table_texts();
    let name = "numpad8"@;
    let lname = ascii_lowercase(name);
    assert(lname =~= "numpad8"@);
    assert(lname[0] != "wheelup"@[0]);
    assert(lname[6] != "numpad0"@[6]);
    assert(lname[6] != "numpad1"@[6]);
    assert(lname[6] != "numpad2"@[6]);
    assert(lname[6] != "numpad3"@[6]);
    assert(lname[6] != "numpad4"@[6]);
    assert(lname[6] != "numpad5"@[6]);
    assert(lname[6] != "numpad6"@[6]);
    assert(lname[6] != "numpad7"@[6]);
    assert(named_main_key(lname) == Some::<(i32, Seq<char>)>((VK_NUMPAD8, name)));
    lemma_pattern_chars();
    lemma_keeps_names(lname);
    lemma_trim_word(lname);
    lemma_ascii_lowercase_plain(name);
    lemma_main_key_named(lname);
}

/// The key name `numpad9` reads back.
proof fn lemma_name_reads_back_16()
    ensures
        key_reads_back(VK_NUMPAD9, "numpad9"@),
{
    reveal(key_reads_back);
    lemma_key_table_texts();
    let name = "numpad9"@;
    let lname = ascii_lowercase(name);
    assert(lname =~= "numpad9"@);
    assert(lname[0] != "wheelup"@[0]);
    assert(lname[6] != "numpad0"@[6]);
    assert(lname[6] != "numpad1"@[6]);
    assert(lname[6] != "numpad2"@[6]);
    assert(lname[6] != "numpad3"@[6]);
    assert(lname[6] != "numpad4"@[6]);
    assert(lname[6] != "numpad5"@[6]);
    assert(lname[6] != "numpad6"@[6]);
    assert(lname[6] != "numpad7"@[6]);
    assert(lname[6] != "numpad8"@[6]);
    assert(named_main_key(lname) == Some::<(i32, Seq<char>)>((VK_NUMPAD9, name)));
    lemma_pattern_chars();
    lemma_keeps_names(lname);
    lemma_trim_word(lname);
    lemma_ascii_lowercase_plain(name);
    lemma_main_key_named(lname);
}

/// The key name `numpadadd` reads back.
proof fn lemma_name_reads_back_17()
    ensures
        key_reads_back(VK_ADD, "numpadadd"@),
{
    reveal(key_reads_back);
    lemma_key_table_texts();
    let name = "numpadadd"@;
    let lname = ascii_lowercase(name);
    assert(lname =~= "numpadadd"@);
    assert(lname[0] != "mouseleft"@[0]);
    assert(lname[0] != "mouseback"@[0]);
    assert(lname[0] != "wheeldown"@[0]);
    assert(named_main_key(lname) == Some::<(i32, Seq<char>)>((VK_ADD, name)));
    lemma_pattern_chars();
    lemma_keeps_names(lname);
    lemma_trim_word(lname);
    lemma_ascii_lowercase_plain(name);
    lemma_main_key_named(lname);
}

/// The key name `numpadsubtract` reads back.
proof fn lemma_name_reads_back_18()
    ensures
        key_reads_back(VK_SUBTRACT, "numpadsubtract"@),
{
    reveal(key_reads_back);
    lemma_key_table_texts();
    let name = "numpadsubtract"@;
    let lname = ascii_lowercase(name);
    assert(lname =~= "numpadsubtract"@);
    assert(named_main_key(lname) == Some::<(i32, Seq<char>)>((VK_SUBTRACT, name)));
    lemma_pattern_chars();
    lemma_keeps_names(lname);
    lemma_trim_word(lname);
    lemma_ascii_lowercase_plain(name);
    lemma_main_key_named(lname);
}

/// The key name `numpadmultiply` reads back.
proof fn lemma_name_reads_back_19()
    ensures
        key_reads_back(VK_MULTIPLY, "numpadmultiply"@),
{
    reveal(key_reads_back);
    lemma_key_table_texts();
    let name = "numpadmultiply"@;
    let lname = ascii_lowercase(name);
    assert(lname =~= "numpadmultiply"@);
    assert(lname[6] != "numpadsubtract"@[6]);
    assert(named_main_key(lname) == Some::<(i32, Seq<char>)>((VK_MULTIPLY, name)));
    lemma_pattern_chars();
    lemma_keeps_names(lname);
    lemma_trim_word(lname);
    lemma_ascii_lowercase_plain(name);
    lemma_main_key_named(lname);
}

/// The key name `numpaddivide` reads back.
proof fn lemma_name_reads_back_20()
    ensures
        key_reads_back(VK_DIVIDE, "numpaddivide"@),
{
    reveal(key_reads_back);
    lemma_key_table_texts();
    let name = "numpaddivide"@;
    let lname = ascii_lowercase(name);
    assert(lname =~= "numpaddivide"@);
    assert(lname[0] != "scrollbutton"@[0]);
    assert(lname[0] != "mouseforward"@[0]);
    assert(named_main_key(lname) == Some::<(i32, Seq<char>)>((VK_DIVIDE, name)));
    lemma_pattern_chars();
    lemma_keeps_names(lname);
    lemma_trim_word(lname);
    lemma_ascii_lowercase_plain(name);
    lemma_main_key_named(lname);
}

/// The key name `numpaddecimal` reads back.
proof fn lemma_name_reads_back_21()
    ensures
        key_reads_back(VK_DECIMAL, "numpaddecimal"@),
{
    reveal(key_reads_back);
    lemma_key_table_texts();
    let name = "numpaddecimal"@;
    let lname = ascii_lowercase(name);
    assert(lname =~= "numpaddecimal"@);
    assert(named_main_key(lname) == Some::<(i32, Seq<char>)>((VK_DECIMAL, name)));
    lemma_pattern_chars();
    lemma_keeps_names(lname);
    lemma_trim_word(lname);
    lemma_ascii_lowercase_plain(name);
    lemma_main_key_named(lname);
}

/// The key name `numpadenter` reads back.
proof fn lemma_name_reads_back_22()
    ensures
        key_reads_back(VK_NUMPAD_ENTER_PSEUDO, "numpadenter"@),
{
    reveal(key_reads_back);
    lemma_key_table_texts();
    let name = "numpadenter"@;
    let lname = ascii_lowercase(name);
    assert(lname =~= "numpadenter"@);
    assert(lname[0] != "mousemiddle"@[0]);
    assert(lname[0] != "middleclick"@[0]);
    assert(named_main_key(lname) == Some::<(i32, Seq<char>)>((VK_NUMPAD_ENTER_PSEUDO, name)));
    lemma_pattern_chars();
    lemma_replace_lacking(lname, "control"@, "ctrl"@);
    lemma_replace_lacking(lname, "command"@, "super"@);
    lemma_replace_lacking(lname, "win"@, "super"@);
    // `numpadenter` holds every letter of `meta`, but not `meta` itself.
    let s1 = lname.drop_first();
    let s2 = s1.drop_first();
    let s3 = s2.drop_first();
    assert(!s3.contains('m')) by {
        assert(s3 =~= seq!['p', 'a', 'd', 'e', 'n', 't', 'e', 'r']);
    }
    lemma_replace_missing_char(s3, "meta"@, "super"@, 'm');
    assert(s2.take(4)[1] != "meta"@[1]);
    assert(seq![s2[0]] + s3 =~= s2);
    assert(s2.drop_first() == s3);
    assert(replace_all(s2, "meta"@, "super"@) == s2);
    assert(s1.take(4)[0] != "meta"@[0]);
    assert(seq![s1[0]] + s2 =~= s1);
    assert(replace_all(s1, "meta"@, "super"@) == s1);
    assert(lname.take(4)[0] != "meta"@[0]);
    assert(seq![lname[0]] + s1 =~= lname);
    assert(replace_all(lname, "meta"@, "super"@) == lname);
    assert(keeps_modifier_names(lname));
    lemma_trim_word(lname);
    lemma_ascii_lowercase_plain(name);
    lemma_main_key_named(lname);
}

/// The key name `IntlBackslash` reads back.
proof fn lemma_name_reads_back_23()
    ensures
        key_reads_back(VK_OEM_102, "IntlBackslash"@),
{
    reveal(key_reads_back);
    lemma_key_table_texts();
    let name = "IntlBackslash"@;
    let lname = ascii_lowercase(name);
    assert(lname =~= "intlbackslash"@);
    assert(lname[0] != "numpaddecimal"@[0]);
    assert(named_main_key(lname) == Some::<(i32, Seq<char>)>((VK_OEM_102, name)));
    lemma_pattern_chars();
    lemma_keeps_names(lname);
    lemma_trim_word(lname);
    lemma_ascii_lowercase_plain(name);
    lemma_main_key_named(lname);
}

/// The key name `space` reads back.
proof fn lemma_name_reads_back_24()
    ensures
        key_reads_back(VK_SPACE, "space"@),
{
    reveal(key_reads_back);
    lemma_key_table_texts();
    let name = "space"@;
    let lname = ascii_lowercase(name);
    assert(lname =~= "space"@);
    assert(named_main_key(lname) == Some::<(i32, Seq<char>)>((VK_SPACE, name)));
    lemma_pattern_chars();
    lemma_keeps_names(lname);
    lemma_trim_word(lname);
    lemma_ascii_lowercase_plain(name);
    lemma_main_key_named(lname);
}

/// The key name `tab` reads back.
proof fn lemma_name_reads_back_25()
    ensures
        key_reads_back(VK_TAB, "tab"@),
{
    reveal(key_reads_back);
    lemma_key_table_texts();
    let name = "tab"@;
    let lname = ascii_lowercase(name);
    assert(lname =~= "tab"@);
    assert(named_main_key(lname) == Some::<(i32, Seq<char>)>((VK_TAB, name)));
    lemma_pattern_chars();
    lemma_keeps_names(lname);
    lemma_trim_word(lname);
    lemma_ascii_lowercase_plain(name);
    lemma_main_key_named(lname);
}

/// The key name `enter` reads back.
proof fn lemma_name_reads_back_26()
    ensures
        key_reads_back(VK_RETURN, "enter"@),
{
    reveal(key_reads_back);
    lemma_key_table_texts();
    let name = "enter"@;
    let lname = ascii_lowercase(name);
    assert(lname =~= "enter"@);
    assert(lname[0] != "space"@[0]);
    assert(named_main_key(lname) == Some::<(i32, Seq<char>)>((VK_RETURN, name)));
    lemma_pattern_chars();
    lemma_keeps_names(lname);
    lemma_trim_word(lname);
    lemma_ascii_lowercase_plain(name);
    lemma_main_key_named(lname);
}

/// The key name `backspace` reads back.
proof fn lemma_name_reads_back_27()
    ensures
        key_reads_back(VK_BACK, "backspace"@),
{
    reveal(key_reads_back);
    lemma_key_table_texts();
    let name = "backspace"@;
    let lname = ascii_lowercase(name);
    assert(lname =~= "backspace"@);
    assert(lname[0] != "mouseleft"@[0]);
    assert(lname[0] != "mouseback"@[0]);
    assert(lname[0] != "wheeldown"@[0]);
    assert(lname[0] != "numpadadd"@[0]);
    assert(named_main_key(lname) == Some::<(i32, Seq<char>)>((VK_BACK, name)));
    lemma_pattern_chars();
    lemma_keeps_names(lname);
    lemma_trim_word(lname);
    lemma_ascii_lowercase_plain(name);
    lemma_main_key_named(lname);
}

/// The key name `delete` reads back.
proof fn lemma_name_reads_back_28()
    ensures
        key_reads_back(VK_DELETE, "delete"@),
{
    reveal(key_reads_back);
    lemma_key_table_texts();
    let name = "delete"@;
    let lname = ascii_lowercase(name);
    assert(lname =~= "delete"@);
    assert(lname[0] != "mouse1"@[0]);
    assert(lname[0] != "mouse2"@[0]);
    assert(lname[0] != "mouse3"@[0]);
    assert(lname[0] != "mouse4"@[0]);
    assert(lname[0] != "mouse5"@[0]);
    assert(lname[0] != "oem102"@[0]);
    assert(named_main_key(lname) == Some::<(i32, Seq<char>)>((VK_DELETE, name)));
    lemma_pattern_chars();
    lemma_keeps_names(lname);
    lemma_trim_word(lname);
    lemma_ascii_lowercase_plain(name);
    lemma_main_key_named(lname);
}

/// The key name `insert` reads back.
proof fn lemma_name_reads_back_29()
    ensures
        key_reads_back(VK_INSERT, "insert"@),
{
    reveal(key_reads_back);
    lemma_key_table_texts();
    let name = "insert"@;
    let lname = ascii_lowercase(name);
    assert(lname =~= "insert"@);
    assert(lname[0] != "mouse1"@[0]);
    assert(lname[0] != "mouse2"@[0]);
    assert(lname[0] != "mouse3"@[0]);
    assert(lname[0] != "mouse4"@[0]);
    assert(lname[0] != "mouse5"@[0]);
    assert(lname[0] != "oem102"@[0]);
    assert(lname[0] != "delete"@[0]);
    assert(named_main_key(lname) == Some::<(i32, Seq<char>)>((VK_INSERT, name)));
    lemma_pattern_chars();
    lemma_keeps_names(lname);
    lemma_trim_word(lname);
    lemma_ascii_lowercase_plain(name);
    lemma_main_key_named(lname);
}

/// The key name `home` reads back.
proof fn lemma_name_reads_back_30()
    ensures
        key_reads_back(VK_HOME, "home"@),
{
    reveal(key_reads_back);
    lemma_key_table_texts();
    let name = "home"@;
    let lname = ascii_lowercase(name);
    assert(lname =~= "home"@);
    assert(named_main_key(lname) == Some::<(i32, Seq<char>)>((VK_HOME, name)));
    lemma_pattern_chars();
    lemma_keeps_names(lname);
    lemma_trim_word(lname);
    lemma_ascii_lowercase_plain(name);
    lemma_main_key_named(lname);
}

/// The key name `end` reads back.
proof fn lemma_name_reads_back_31()
    ensures
        key_reads_back(VK_END, "end"@),
{
    reveal(key_reads_back);
    lemma_key_table_texts();
    let name = "end"@;
    let lname = ascii_lowercase(name);
    assert(lname =~= "end"@);
    assert(lname[0] != "tab"@[0]);
    assert(named_main_key(lname) == Some::<(i32, Seq<char>)>((VK_END, name)));
    lemma_pattern_chars();
    lemma_keeps_names(lname);
    lemma_trim_word(lname);
    lemma_ascii_lowercase_plain(name);
    lemma_main_key_named(lname);
}

/// The key name `pageup` reads back.
proof fn lemma_name_reads_back_32()
    ensures
        key_reads_back(VK_PRIOR, "pageup"@),
{
    reveal(key_reads_back);
    lemma_key_table_texts();
    let name = "pageup"@;
    let lname = ascii_lowercase(name);
    assert(lname =~= "pageup"@);
    assert(lname[0] != "mouse1"@[0]);
    assert(lname[0] != "mouse2"@[0]);
    assert(lname[0] != "mouse3"@[0]);
    assert(lname[0] != "mouse4"@[0]);
    assert(lname[0] != "mouse5"@[0]);
    assert(lname[0] != "oem102"@[0]);
    assert(lname[0] != "delete"@[0]);
    assert(lname[0] != "insert"@[0]);
    assert(named_main_key(lname) == Some::<(i32, Seq<char>)>((VK_PRIOR, name)));
    lemma_pattern_chars();
    lemma_keeps_names(lname);
    lemma_trim_word(lname);
    lemma_ascii_lowercase_plain(name);
    lemma_main_key_named(lname);
}

/// The key name `pagedown` reads back.
proof fn lemma_name_reads_back_33()
    ensures
        key_reads_back(VK_NEXT, "pagedown"@),
{
    reveal(key_reads_back);
    lemma_key_table_texts();
    let name = "pagedown"@;
    let lname = ascii_lowercase(name);
    assert(lname =~= "pagedown"@);
    assert(lname[0] != "xbutton1"@[0]);
    assert(lname[0] != "xbutton2"@[0]);
    assert(lname[0] != "scrollup"@[0]);
    assert(lname[0] != "spacebar"@[0]);
    assert(named_main_key(lname) == Some::<(i32, Seq<char>)>((VK_NEXT, name)));
    lemma_pattern_chars();
    lemma_keeps_names(lname);
    lemma_trim_word(lname);
    lemma_ascii_lowercase_plain(name);
    lemma_main_key_named(lname);
}

/// The key name `up` reads back.
proof fn lemma_name_reads_back_34()
    ensures
        key_reads_back(VK_UP, "up"@),
{
    reveal(key_reads_back);
    lemma_key_table_texts();
    let name = "up"@;
    let lname = ascii_lowercase(name);
    assert(lname =~= "up"@);
    assert(named_main_key(lname) == Some::<(i32, Seq<char>)>((VK_UP, name)));
    lemma_pattern_chars();
    lemma_keeps_names(lname);
    lemma_trim_word(lname);
    lemma_ascii_lowercase_plain(name);
    lemma_main_key_named(lname);
}

/// The key name `down` reads back.
proof fn lemma_name_reads_back_35()
    ensures
        key_reads_back(VK_DOWN, "down"@),
{
    reveal(key_reads_back);
    lemma_key_table_texts();
    let name = "down"@;
    let lname = ascii_lowercase(name);
    assert(lname =~= "down"@);
    assert(lname[0] != "home"@[0]);
    assert(named_main_key(lname) == Some::<(i32, Seq<char>)>((VK_DOWN, name)));
    lemma_pattern_chars();
    lemma_keeps_names(lname);
    lemma_trim_word(lname);
    lemma_ascii_lowercase_plain(name);
    lemma_main_key_named(lname);
}

/// The key name `left` reads back.
proof fn lemma_name_reads_back_36()
    ensures
        key_reads_back(VK_LEFT, "left"@),
{
    reveal(key_reads_back);
    lemma_key_table_texts();
    let name = "left"@;
    let lname = ascii_lowercase(name);
    assert(lname =~= "left"@);
    assert(lname[0] != "home"@[0]);
    assert(lname[0] != "down"@[0]);
    assert(named_main_key(lname) == Some::<(i32, Seq<char>)>((VK_LEFT, name)));
    lemma_pattern_chars();
    lemma_keeps_names(lname);
    lemma_trim_word(lname);
    lemma_ascii_lowercase_plain(name);
    lemma_main_key_named(lname);
}

/// The key name `right` reads back.
proof fn lemma_name_reads_back_37()
    ensures
        key_reads_back(VK_RIGHT, "right"@),
{
    reveal(key_reads_back);
    lemma_key_table_texts();
    let name = "right"@;
    let lname = ascii_lowercase(name);
    assert(lname =~= "right"@);
    assert(lname[0] != "space"@[0]);
    assert(lname[0] != "enter"@[0]);
    assert(named_main_key(lname) == Some::<(i32, Seq<char>)>((VK_RIGHT, name)));
    lemma_pattern_chars();
    lemma_keeps_names(lname);
    lemma_trim_word(lname);
    lemma_ascii_lowercase_plain(name);
    lemma_main_key_named(lname);
}

/// The key name `escape` reads back.
proof fn lemma_name_reads_back_38()
    ensures
        key_reads_back(VK_ESCAPE, "escape"@),
{
    reveal(key_reads_back);
    lemma_key_table_texts();
    let name = "escape"@;
    let lname = ascii_lowercase(name);
    assert(lname =~= "escape"@);
    assert(lname[0] != "mouse1"@[0]);
    assert(lname[0] != "mouse2"@[0]);
    assert(lname[0] != "mouse3"@[0]);
    assert(lname[0] != "mouse4"@[0]);
    assert(lname[0] != "mouse5"@[0]);
    assert(lname[0] != "oem102"@[0]);
    assert(lname[0] != "delete"@[0]);
    assert(lname[0] != "insert"@[0]);
    assert(lname[0] != "pageup"@[0]);
    assert(named_main_key(lname) == Some::<(i32, Seq<char>)>((VK_ESCAPE, name)));
    lemma_pattern_chars();
    lemma_keeps_names(lname);
    lemma_trim_word(lname);
    lemma_ascii_lowercase_plain(name);
    lemma_main_key_named(lname);
}

/// The key name `/` reads back.
proof fn lemma_name_reads_back_39()
    ensures
        key_reads_back(VK_OEM_2, "/"@),
{
    reveal(key_reads_back);
    lemma_key_table_texts();
    let name = "/"@;
    let lname = ascii_lowercase(name);
    assert(lname =~= "/"@);
    assert(lname[0] != "<"@[0]);
    assert(lname[0] != ">"@[0]);
    assert(named_main_key(lname) == Some::<(i32, Seq<char>)>((VK_OEM_2, name)));
    lemma_pattern_chars();
    lemma_keeps_names(lname);
    lemma_trim_word(lname);
    lemma_ascii_lowercase_plain(name);
    lemma_main_key_named(lname);
}

/// The key name `\\` reads back.
proof fn lemma_name_reads_back_40()
    ensures
        key_reads_back(VK_OEM_5, "\\"@),
{
    reveal(key_reads_back);
    lemma_key_table_texts();
    let name = "\\"@;
    let lname = ascii_lowercase(name);
    assert(lname =~= "\\"@);
    assert(lname[0] != "<"@[0]);
    assert(lname[0] != ">"@[0]);
    assert(lname[0] != "/"@[0]);
    assert(named_main_key(lname) == Some::<(i32, Seq<char>)>((VK_OEM_5, name)));
    lemma_pattern_chars();
    lemma_keeps_names(lname);
    lemma_trim_word(lname);
    lemma_ascii_lowercase_plain(name);
    lemma_main_key_named(lname);
}

/// The key name `;` reads back.
proof fn lemma_name_reads_back_41()
    ensures
        key_reads_back(VK_OEM_1, ";"@),
{
    reveal(key_reads_back);
    lemma_key_table_texts();
    let name = ";"@;
    let lname = ascii_lowercase(name);
    assert(lname =~= ";"@);
    assert(lname[0] != "<"@[0]);
    assert(lname[0] != ">"@[0]);
    assert(lname[0] != "/"@[0]);
    assert(lname[0] != "\\"@[0]);
    assert(named_main_key(lname) == Some::<(i32, Seq<char>)>((VK_OEM_1, name)));
    lemma_pattern_chars();
    lemma_keeps_names(lname);
    lemma_trim_word(lname);
    lemma_ascii_lowercase_plain(name);
    lemma_main_key_named(lname);
}

/// The key name `'` reads back.
proof fn lemma_name_reads_back_42()
    ensures
        key_reads_back(VK_OEM_7, "'"@),
{
    reveal(key_reads_back);
    lemma_key_table_texts();
    let name = "'"@;
    let lname = ascii_lowercase(name);
    assert(lname =~= "'"@);
    assert(lname[0] != "<"@[0]);
    assert(lname[0] != ">"@[0]);
    assert(lname[0] != "/"@[0]);
    assert(lname[0] != "\\"@[0]);
    assert(lname[0] != ";"@[0]);
    assert(named_main_key(lname) == Some::<(i32, Seq<char>)>((VK_OEM_7, name)));
    lemma_pattern_chars();
    lemma_keeps_names(lname);
    lemma_trim_word(lname);
    lemma_ascii_lowercase_plain(name);
    lemma_main_key_named(lname);
}

/// The key name `[` reads back.
proof fn lemma_name_reads_back_43()
    ensures
        key_reads_back(VK_OEM_4, "["@),
{
    reveal(key_reads_back);
    lemma_key_table_texts();
    let name = "["@;
    let lname = ascii_lowercase(name);
    assert(lname =~= "["@);
    assert(lname[0] != "<"@[0]);
    assert(lname[0] != ">"@[0]);
    assert(lname[0] != "/"@[0]);
    assert(lname[0] != "\\"@[0]);
    assert(lname[0] != ";"@[0]);
    assert(lname[0] != "'"@[0]);
    assert(named_main_key(lname) == Some::<(i32, Seq<char>)>((VK_OEM_4, name)));
    lemma_pattern_chars();
    lemma_keeps_names(lname);
    lemma_trim_word(lname);
    lemma_ascii_lowercase_plain(name);
    lemma_main_key_named(lname);
}

/// The key name `]` reads back.
proof fn lemma_name_reads_back_44()
    ensures
        key_reads_back(VK_OEM_6, "]"@),
{
    reveal(key_reads_back);
    lemma_key_table_texts();
    let name = "]"@;
    let lname = ascii_lowercase(name);
    assert(lname =~= "]"@);
    assert(lname[0] != "<"@[0]);
    assert(lname[0] != ">"@[0]);
    assert(lname[0] != "/"@[0]);
    assert(lname[0] != "\\"@[0]);
    assert(lname[0] != ";"@[0]);
    assert(lname[0] != "'"@[0]);
    assert(lname[0] != "["@[0]);
    assert(named_main_key(lname) == Some::<(i32, Seq<char>)>((VK_OEM_6, name)));
    lemma_pattern_chars();
    lemma_keeps_names(lname);
    lemma_trim_word(lname);
    lemma_ascii_lowercase_plain(name);
    lemma_main_key_named(lname);
}

/// The key name `-` reads back.
proof fn lemma_name_reads_back_45()
    ensures
        key_reads_back(VK_OEM_MINUS, "-"@),
{
    reveal(key_reads_back);
    lemma_key_table_texts();
    let name = "-"@;
    let lname = ascii_lowercase(name);
    assert(lname =~= "-"@);
    assert(lname[0] != "<"@[0]);
    assert(lname[0] != ">"@[0]);
    assert(lname[0] != "/"@[0]);
    assert(lname[0] != "\\"@[0]);
    assert(lname[0] != ";"@[0]);
    assert(lname[0] != "'"@[0]);
    assert(lname[0] != "["@[0]);
    assert(lname[0] != "]"@[0]);
    assert(named_main_key(lname) == Some::<(i32, Seq<char>)>((VK_OEM_MINUS, name)));
    lemma_pattern_chars();
    lemma_keeps_names(lname);
    lemma_trim_word(lname);
    lemma_ascii_lowercase_plain(name);
    lemma_main_key_named(lname);
}

/// The key name `=` reads back.
proof fn lemma_name_reads_back_46()
    ensures
        key_reads_back(VK_OEM_PLUS, "="@),
{
    reveal(key_reads_back);
    lemma_key_table_texts();
    let name = "="@;
    let lname = ascii_lowercase(name);
    assert(lname =~= "="@);
    assert(lname[0] != "<"@[0]);
    assert(lname[0] != ">"@[0]);
    assert(lname[0] != "/"@[0]);
    assert(lname[0] != "\\"@[0]);
    assert(lname[0] != ";"@[0]);
    assert(lname[0] != "'"@[0]);
    assert(lname[0] != "["@[0]);
    assert(lname[0] != "]"@[0]);
    assert(lname[0] != "-"@[0]);
    assert(named_main_key(lname) == Some::<(i32, Seq<char>)>((VK_OEM_PLUS, name)));
    lemma_pattern_chars();
    lemma_keeps_names(lname);
    lemma_trim_word(lname);
    lemma_ascii_lowercase_plain(name);
    lemma_main_key_named(lname);
}

/// The key name of the backquote key reads back.
proof fn lemma_name_reads_back_47()
    ensures
        key_reads_back(VK_OEM_3, "`"@),
{
    reveal(key_reads_back);
    lemma_key_table_texts();
    let name = "`"@;
    let lname = ascii_lowercase(name);
    assert(lname =~= "`"@);
    assert(lname[0] != "<"@[0]);
    assert(lname[0] != ">"@[0]);
    assert(lname[0] != "/"@[0]);
    assert(lname[0] != "\\"@[0]);
    assert(lname[0] != ";"@[0]);
    assert(lname[0] != "'"@[0]);
    assert(lname[0] != "["@[0]);
    assert(lname[0] != "]"@[0]);
    assert(lname[0] != "-"@[0]);
    assert(lname[0] != "="@[0]);
    assert(named_main_key(lname) == Some::<(i32, Seq<char>)>((VK_OEM_3, name)));
    lemma_pattern_chars();
    lemma_keeps_names(lname);
    lemma_trim_word(lname);
    lemma_ascii_lowercase_plain(name);
    lemma_main_key_named(lname);
}

/// The key name `,` reads back.
proof fn lemma_name_reads_back_48()
    ensures
        key_reads_back(VK_OEM_COMMA, ","@),
{
    reveal(key_reads_back);
    lemma_key_table_texts();
    let name = ","@;
    let lname = ascii_lowercase(name);
    assert(lname =~= ","@);
    assert(lname[0] != "<"@[0]);
    assert(lname[0] != ">"@[0]);
    assert(lname[0] != "/"@[0]);
    assert(lname[0] != "\\"@[0]);
    assert(lname[0] != ";"@[0]);
    assert(lname[0] != "'"@[0]);
    assert(lname[0] != "["@[0]);
    assert(lname[0] != "]"@[0]);
    assert(lname[0] != "-"@[0]);
    assert(lname[0] != "="@[0]);
    assert(lname[0] != "`"@[0]);
    assert(named_main_key(lname) == Some::<(i32, Seq<char>)>((VK_OEM_COMMA, name)));
    lemma_pattern_chars();
    lemma_keeps_names(lname);
    lemma_trim_word(lname);
    lemma_ascii_lowercase_plain(name);
    lemma_main_key_named(lname);
}

/// The key name `.` reads back.
proof fn lemma_name_reads_back_49()
    ensures
        key_reads_back(VK_OEM_PERIOD, "."@),
{
    reveal(key_reads_back);
    lemma_key_table_texts();
    let name = "."@;
    let lname = ascii_lowercase(name);
    assert(lname =~= "."@);
    assert(lname[0] != "<"@[0]);
    assert(lname[0] != ">"@[0]);
    assert(lname[0] != "/"@[0]);
    assert(lname[0] != "\\"@[0]);
    assert(lname[0] != ";"@[0]);
    assert(lname[0] != "'"@[0]);
    assert(lname[0] != "["@[0]);
    assert(lname[0] != "]"@[0]);
    assert(lname[0] != "-"@[0]);
    assert(lname[0] != "="@[0]);
    assert(lname[0] != "`"@[0]);
    assert(lname[0] != ","@[0]);
    assert(named_main_key(lname) == Some::<(i32, Seq<char>)>((VK_OEM_PERIOD, name)));
    lemma_pattern_chars();
    lemma_keeps_names(lname);
    lemma_trim_word(lname);
    lemma_ascii_lowercase_plain(name);
    lemma_main_key_named(lname);
}

/// Every key of the table reads back.
proof fn lemma_table_reads_back(x: Seq<char>)
    requires
        named_main_key(x) is Some,
    ensures
        named_main_key(x) matches Some(e) && key_reads_back(e.0, e.1),
{
    lemma_name_reads_back_0();
    lemma_name_reads_back_1();
    lemma_name_reads_back_2();
    lemma_name_reads_back_3();
    lemma_name_reads_back_4();
    lemma_name_reads_back_5();
    lemma_name_reads_back_6();
    lemma_name_reads_back_7();
    lemma_name_reads_back_8();
    lemma_name_reads_back_9();
    lemma_name_reads_back_10();
    lemma_name_reads_back_11();
    lemma_name_reads_back_12();
    lemma_name_reads_back_13();
    lemma_name_reads_back_14();
    lemma_name_reads_back_15();
    lemma_name_reads_back_16();
    lemma_name_reads_back_17();
    lemma_name_reads_back_18();
    lemma_name_reads_back_19();
    lemma_name_reads_back_20();
    lemma_name_reads_back_21();
    lemma_name_reads_back_22();
    lemma_name_reads_back_23();
    lemma_name_reads_back_24();
    lemma_name_reads_back_25();
    lemma_name_reads_back_26();
    lemma_name_reads_back_27();
    lemma_name_reads_back_28();
    lemma_name_reads_back_29();
    lemma_name_reads_back_30();
    lemma_name_reads_back_31();
    lemma_name_reads_back_32();
    lemma_name_reads_back_33();
    lemma_name_reads_back_34();
    lemma_name_reads_back_35();
    lemma_name_reads_back_36();
    lemma_name_reads_back_37();
    lemma_name_reads_back_38();
    lemma_name_reads_back_39();
    lemma_name_reads_back_40();
    lemma_name_reads_back_41();
    lemma_name_reads_back_42();
    lemma_name_reads_back_43();
    lemma_name_reads_back_44();
    lemma_name_reads_back_45();
    lemma_name_reads_back_46();
    lemma_name_reads_back_47();
    lemma_name_reads_back_48();
    lemma_name_reads_back_49();
}

/// Law: a hotkey made of one lowercase ASCII token, without
/// white space at its ends or `+`, that keeps the modifier names and is no
/// modifier word, and reads as the key `vk` named `name`, reads as that key
/// with no modifiers.
pub proof fn lemma_single_token_hotkey(t: Seq<char>, vk: i32, name: Seq<char>)
    requires
        t.len() > 0,
        all_ascii(t),
        ascii_lowercase(t) == t,
        !is_white_space(t[0]),
        !is_white_space(t.last()),
        !t.contains('+'),
        keeps_modifier_names(t),
        !is_modifier_word(t),
        main_key_result(t, t, true) == Ok::<(i32, Seq<char>), Seq<char>>((vk, name)),
    ensures
        parsed_hotkey(t) == Ok::<BindingView, Seq<char>>((false, false, false, false, vk, name)),
{
    lemma_trim_word(t);
    assert(lowercased(trim(t)) == t);
    assert(normalized_hotkey(t) == t);
    lemma_split_single_piece(t, '+');
    let tk = seq![t];
    assert(tk.drop_first() =~= Seq::<Seq<char>>::empty());
    assert(tk[0] == t);
    let k = (vk, name);
    let st: ParseState = (false, false, false, false, Some(k));
    assert(read_tokens(Seq::<Seq<char>>::empty(), t, st) == Ok::<ParseState, Seq<char>>(st));
    assert(read_tokens(tk, t, (false, false, false, false, None)) == Ok::<ParseState, Seq<char>>(st));
}

/// Law: the other names of the key `mouseleft` read as it: `mouse1` each
/// read as the main key `mouseleft` with code `VK_LBUTTON`, as its own name does.
pub proof fn lemma_key_aliases_vk_lbutton()
    ensures
        forall|o: Seq<char>| #[trigger] main_key_result("mouse1"@, o, true) == Ok::<(i32, Seq<char>), Seq<char>>((VK_LBUTTON, "mouseleft"@)),
{
    lemma_key_table_texts();
    assert forall|o: Seq<char>| #[trigger] main_key_result("mouse1"@, o, true) == Ok::<(i32, Seq<char>), Seq<char>>((VK_LBUTTON, "mouseleft"@)) by {
        let t = "mouse1"@;
        assert(named_main_key(t) == Some::<(i32, Seq<char>)>((VK_LBUTTON, "mouseleft"@)));
        assert(ascii_lowercase(t) =~= t);
        lemma_trim_word(t);
        lemma_main_key_named(t);
    }
}

/// Law: the other names of the key `mouseright` read as it: `mouse2` each
/// read as the main key `mouseright` with code `VK_RBUTTON`, as its own name does.
pub proof fn lemma_key_aliases_vk_rbutton()
    ensures
        forall|o: Seq<char>| #[trigger] main_key_result("mouse2"@, o, true) == Ok::<(i32, Seq<char>), Seq<char>>((VK_RBUTTON, "mouseright"@)),
{
    lemma_key_table_texts();
    assert forall|o: Seq<char>| #[trigger] main_key_result("mouse2"@, o, true) == Ok::<(i32, Seq<char>), Seq<char>>((VK_RBUTTON, "mouseright"@)) by {
        let t = "mouse2"@;
        assert(t[5] != "mouse1"@[5]);
        assert(named_main_key(t) == Some::<(i32, Seq<char>)>((VK_RBUTTON, "mouseright"@)));
        assert(ascii_lowercase(t) =~= t);
        lemma_trim_word(t);
        lemma_main_key_named(t);
    }
}

/// Law: the other names of the key `mousemiddle` read as it: `mouse3`, `scrollbutton`, `middleclick` each
/// read as the main key `mousemiddle` with code `VK_MBUTTON`, as its own name does.
pub proof fn lemma_key_aliases_vk_mbutton()
    ensures
        forall|o: Seq<char>| #[trigger] main_key_result("mouse3"@, o, true) == Ok::<(i32, Seq<char>), Seq<char>>((VK_MBUTTON, "mousemiddle"@)),
        forall|o: Seq<char>| #[trigger] main_key_result("scrollbutton"@, o, true) == Ok::<(i32, Seq<char>), Seq<char>>((VK_MBUTTON, "mousemiddle"@)),
        forall|o: Seq<char>| #[trigger] main_key_result("middleclick"@, o, true) == Ok::<(i32, Seq<char>), Seq<char>>((VK_MBUTTON, "mousemiddle"@)),
{
    lemma_key_table_texts();
    assert forall|o: Seq<char>| #[trigger] main_key_result("mouse3"@, o, true) == Ok::<(i32, Seq<char>), Seq<char>>((VK_MBUTTON, "mousemiddle"@)) by {
        let t = "mouse3"@;
        assert(t[5] != "mouse1"@[5]);
        assert(t[5] != "mouse2"@[5]);
        assert(named_main_key(t) == Some::<(i32, Seq<char>)>((VK_MBUTTON, "mousemiddle"@)));
        assert(ascii_lowercase(t) =~= t);
        lemma_trim_word(t);
        lemma_main_key_named(t);
    }
    assert forall|o: Seq<char>| #[trigger] main_key_result("scrollbutton"@, o, true) == Ok::<(i32, Seq<char>), Seq<char>>((VK_MBUTTON, "mousemiddle"@)) by {
        let t = "scrollbutton"@;
        assert(named_main_key(t) == Some::<(i32, Seq<char>)>((VK_MBUTTON, "mousemiddle"@)));
        assert(ascii_lowercase(t) =~= t);
        lemma_trim_word(t);
        lemma_main_key_named(t);
    }
    assert forall|o: Seq<char>| #[trigger] main_key_result("middleclick"@, o, true) == Ok::<(i32, Seq<char>), Seq<char>>((VK_MBUTTON, "mousemiddle"@)) by {
        let t = "middleclick"@;
        assert(t[1] != "mousemiddle"@[1]);
        assert(named_main_key(t) == Some::<(i32, Seq<char>)>((VK_MBUTTON, "mousemiddle"@)));
        assert(ascii_lowercase(t) =~= t);
        lemma_trim_word(t);
        lemma_main_key_named(t);
    }
}

/// Law: the other names of the key `mouse4` read as it: `mouseback`, `xbutton1` each
/// read as the main key `mouse4` with code `VK_XBUTTON1`, as its own name does.
pub proof fn lemma_key_aliases_vk_xbutton1()
    ensures
        forall|o: Seq<char>| #[trigger] main_key_result("mouseback"@, o, true) == Ok::<(i32, Seq<char>), Seq<char>>((VK_XBUTTON1, "mouse4"@)),
        forall|o: Seq<char>| #[trigger] main_key_result("xbutton1"@, o, true) == Ok::<(i32, Seq<char>), Seq<char>>((VK_XBUTTON1, "mouse4"@)),
{
    lemma_key_table_texts();
    assert forall|o: Seq<char>| #[trigger] main_key_result("mouseback"@, o, true) == Ok::<(i32, Seq<char>), Seq<char>>((VK_XBUTTON1, "mouse4"@)) by {
        let t = "mouseback"@;
        assert(t[5] != "mouseleft"@[5]);
        assert(named_main_key(t) == Some::<(i32, Seq<char>)>((VK_XBUTTON1, "mouse4"@)));
        assert(ascii_lowercase(t) =~= t);
        lemma_trim_word(t);
        lemma_main_key_named(t);
    }
    assert forall|o: Seq<char>| #[trigger] main_key_result("xbutton1"@, o, true) == Ok::<(i32, Seq<char>), Seq<char>>((VK_XBUTTON1, "mouse4"@)) by {
        let t = "xbutton1"@;
        assert(named_main_key(t) == Some::<(i32, Seq<char>)>((VK_XBUTTON1, "mouse4"@)));
        assert(ascii_lowercase(t) =~= t);
        lemma_trim_word(t);
        lemma_main_key_named(t);
    }
}

/// Law: the other names of the key `mouse5` read as it: `mouseforward`, `xbutton2` each
/// read as the main key `mouse5` with code `VK_XBUTTON2`, as its own name does.
pub proof fn lemma_key_aliases_vk_xbutton2()
    ensures
        forall|o: Seq<char>| #[trigger] main_key_result("mouseforward"@, o, true) == Ok::<(i32, Seq<char>), Seq<char>>((VK_XBUTTON2, "mouse5"@)),
        forall|o: Seq<char>| #[trigger] main_key_result("xbutton2"@, o, true) == Ok::<(i32, Seq<char>), Seq<char>>((VK_XBUTTON2, "mouse5"@)),
{
    lemma_key_table_texts();
    assert forall|o: Seq<char>| #[trigger] main_key_result("mouseforward"@, o, true) == Ok::<(i32, Seq<char>), Seq<char>>((VK_XBUTTON2, "mouse5"@)) by {
        let t = "mouseforward"@;
        assert(t[0] != "scrollbutton"@[0]);
        assert(named_main_key(t) == Some::<(i32, Seq<char>)>((VK_XBUTTON2, "mouse5"@)));
        assert(ascii_lowercase(t) =~= t);
        lemma_trim_word(t);
        lemma_main_key_named(t);
    }
    assert forall|o: Seq<char>| #[trigger] main_key_result("xbutton2"@, o, true) == Ok::<(i32, Seq<char>), Seq<char>>((VK_XBUTTON2, "mouse5"@)) by {
        let t = "xbutton2"@;
        assert(t[7] != "xbutton1"@[7]);
        assert(named_main_key(t) == Some::<(i32, Seq<char>)>((VK_XBUTTON2, "mouse5"@)));
        assert(ascii_lowercase(t) =~= t);
        lemma_trim_word(t);
        lemma_main_key_named(t);
    }
}

/// Law: the other names of the key `scrollup` read as it: `wheelup` each
/// read as the main key `scrollup` with code `VK_SCROLL_UP_PSEUDO`, as its own name does.
pub proof fn lemma_key_aliases_vk_scroll_up_pseudo()
    ensures
        forall|o: Seq<char>| #[trigger] main_key_result("wheelup"@, o, true) == Ok::<(i32, Seq<char>), Seq<char>>((VK_SCROLL_UP_PSEUDO, "scrollup"@)),
{
    lemma_key_table_texts();
    assert forall|o: Seq<char>| #[trigger] main_key_result("wheelup"@, o, true) == Ok::<(i32, Seq<char>), Seq<char>>((VK_SCROLL_UP_PSEUDO, "scrollup"@)) by {
        let t = "wheelup"@;
        assert(named_main_key(t) == Some::<(i32, Seq<char>)>((VK_SCROLL_UP_PSEUDO, "scrollup"@)));
        assert(ascii_lowercase(t) =~= t);
        lemma_trim_word(t);
        lemma_main_key_named(t);
    }
}

/// Law: the other names of the key `scrolldown` read as it: `wheeldown` each
/// read as the main key `scrolldown` with code `VK_SCROLL_DOWN_PSEUDO`, as its own name does.
pub proof fn lemma_key_aliases_vk_scroll_down_pseudo()
    ensures
        forall|o: Seq<char>| #[trigger] main_key_result("wheeldown"@, o, true) == Ok::<(i32, Seq<char>), Seq<char>>((VK_SCROLL_DOWN_PSEUDO, "scrolldown"@)),
{
    lemma_key_table_texts();
    assert forall|o: Seq<char>| #[trigger] main_key_result("wheeldown"@, o, true) == Ok::<(i32, Seq<char>), Seq<char>>((VK_SCROLL_DOWN_PSEUDO, "scrolldown"@)) by {
        let t = "wheeldown"@;
        assert(t[0] != "mouseleft"@[0]);
        assert(t[0] != "mouseback"@[0]);
        assert(named_main_key(t) == Some::<(i32, Seq<char>)>((VK_SCROLL_DOWN_PSEUDO, "scrolldown"@)));
        assert(ascii_lowercase(t) =~= t);
        lemma_trim_word(t);
        lemma_main_key_named(t);
    }
}















/// Law: the other name of the key `space` reads as it: `spacebar` reads as the main
/// key `space` with code `VK_SPACE`, as its own name does.
pub proof fn lemma_key_aliases_vk_space()
    ensures
        forall|o: Seq<char>| #[trigger] main_key_result("spacebar"@, o, true) == Ok::<(i32, Seq<char>), Seq<char>>((VK_SPACE, "space"@)),
{
    lemma_key_table_texts();
    assert forall|o: Seq<char>| #[trigger] main_key_result("spacebar"@, o, true) == Ok::<(i32, Seq<char>), Seq<char>>((VK_SPACE, "space"@)) by {
        let t = "spacebar"@;
        assert(t[0] != "xbutton1"@[0]);
        assert(t[0] != "xbutton2"@[0]);
        assert(t[1] != "scrollup"@[1]);
        assert(named_main_key(t) == Some::<(i32, Seq<char>)>((VK_SPACE, "space"@)));
        assert(ascii_lowercase(t) =~= t);
        lemma_trim_word(t);
        lemma_main_key_named(t);
    }
}

/// Law: the other name of the key `escape` reads as it: `esc` reads as the main
/// key `escape` with code `VK_ESCAPE`, as its own name does.
pub proof fn lemma_key_aliases_vk_escape()
    ensures
        forall|o: Seq<char>| #[trigger] main_key_result("esc"@, o, true) == Ok::<(i32, Seq<char>), Seq<char>>((VK_ESCAPE, "escape"@)),
{
    lemma_key_table_texts();
    assert forall|o: Seq<char>| #[trigger] main_key_result("esc"@, o, true) == Ok::<(i32, Seq<char>), Seq<char>>((VK_ESCAPE, "escape"@)) by {
        let t = "esc"@;
        assert(t[0] != "tab"@[0]);
        assert(t[1] != "end"@[1]);
        assert(named_main_key(t) == Some::<(i32, Seq<char>)>((VK_ESCAPE, "escape"@)));
        assert(ascii_lowercase(t) =~= t);
        lemma_trim_word(t);
        lemma_main_key_named(t);
    }
}

/// The text of a binding whose key name reads back, normalized: its
/// modifier parts and the lowercase key name.
#[verifier::rlimit(40)]
proof fn lemma_formatted_normalized(b: BindingView)
    requires
        key_reads_back(b.4, b.5),
    ensures
        normalized_hotkey(formatted_binding(b)) == modifier_part(b.0, "ctrl"@) + (modifier_part(b.1, "alt"@) + (
            modifier_part(b.2, "shift"@) + (modifier_part(b.3, "super"@) + ascii_lowercase(b.5)))),
{
    reveal(key_reads_back);
    reveal_strlit("alt");
    reveal_strlit("option");
    reveal_strlit("ctrl");
    reveal_strlit("control");
    reveal_strlit("shift");
    reveal_strlit("super");
    reveal_strlit("command");
    reveal_strlit("cmd");
    reveal_strlit("meta");
    reveal_strlit("win");
    reveal_strlit("ctrl+");
    reveal_strlit("alt+");
    reveal_strlit("shift+");
    reveal_strlit("super+");
    let h = formatted_binding(b);
    let name = b.5;
    let lname = ascii_lowercase(name);
    let pc = modifier_part(b.0, "ctrl"@);
    let pa = modifier_part(b.1, "alt"@);
    let ps = modifier_part(b.2, "shift"@);
    let pu = modifier_part(b.3, "super"@);
    lemma_modifier_part_plain(b.0, 0);
    lemma_modifier_part_plain(b.1, 1);
    lemma_modifier_part_plain(b.2, 2);
    lemma_modifier_part_plain(b.3, 3);
    assert(h =~= pc + (pa + (ps + (pu + name))));
    // The text is ASCII and has no white space at its ends.
    lemma_ascii_lowercase_concat(pu, name);
    lemma_ascii_lowercase_concat(ps, pu + name);
    lemma_ascii_lowercase_concat(pa, ps + (pu + name));
    lemma_ascii_lowercase_concat(pc, pa + (ps + (pu + name)));
    assert(all_ascii(h)) by {
        assert forall|i: int| 0 <= i < h.len() implies '\0' <= #[trigger] h[i] <= '\u{7f}' by {
            let n4 = pu.len() as int;
            let n3 = ps.len() + n4;
            let n2 = pa.len() + n3;
            let n1 = pc.len() + n2;
            if i < pc.len() {
                assert(h[i] == pc[i]);
            } else if i < pc.len() + pa.len() {
                assert(h[i] == pa[i - pc.len()]);
            } else if i < pc.len() + pa.len() + ps.len() {
                assert(h[i] == ps[i - pc.len() - pa.len()]);
            } else if i < pc.len() + pa.len() + ps.len() + pu.len() {
                assert(h[i] == pu[i - pc.len() - pa.len() - ps.len()]);
            } else {
                assert(h[i] == name[i - pc.len() - pa.len() - ps.len() - pu.len()]);
            }
        }
    }
    assert(h.last() == name.last());
    assert(!is_white_space(h[0])) by {
        if b.0 {
            assert(h[0] == 'c');
        } else if b.1 {
            assert(h[0] == 'a');
        } else if b.2 {
            assert(h[0] == 's');
        } else if b.3 {
            assert(h[0] == 's');
        } else {
            assert(h[0] == name[0]);
        }
    }
    lemma_trim_word(h);
    // Lowercasing and renaming leave the modifier parts and the lowercase
    // key name.
    let x = pc + (pa + (ps + (pu + lname)));
    assert(lowercased(trim(h)) == x);
    lemma_keeps_after_part(b.3, "super"@, lname);
    lemma_keeps_after_part(b.2, "shift"@, pu + lname);
    lemma_keeps_after_part(b.1, "alt"@, ps + (pu + lname));
    lemma_keeps_after_part(b.0, "ctrl"@, pa + (ps + (pu + lname)));
    assert(normalized_hotkey(h) == x);
}

/// Law: writing a binding and parsing the text back gives the binding, for
/// every binding whose key name reads back as its key.
#[verifier::rlimit(40)]
pub proof fn lemma_format_then_parse(b: BindingView)
    requires
        key_reads_back(b.4, b.5),
    ensures
        parsed_hotkey(formatted_binding(b)) == Ok::<BindingView, Seq<char>>(b),
{
    reveal(key_reads_back);
    reveal_strlit("alt");
    reveal_strlit("option");
    reveal_strlit("ctrl");
    reveal_strlit("control");
    reveal_strlit("shift");
    reveal_strlit("super");
    reveal_strlit("command");
    reveal_strlit("cmd");
    reveal_strlit("meta");
    reveal_strlit("win");
    reveal_strlit("ctrl+");
    reveal_strlit("alt+");
    reveal_strlit("shift+");
    reveal_strlit("super+");
    let h = formatted_binding(b);
    let name = b.5;
    let lname = ascii_lowercase(name);
    let pc = modifier_part(b.0, "ctrl"@);
    let pa = modifier_part(b.1, "alt"@);
    let ps = modifier_part(b.2, "shift"@);
    let pu = modifier_part(b.3, "super"@);
    lemma_modifier_part_plain(b.0, 0);
    lemma_modifier_part_plain(b.1, 1);
    lemma_modifier_part_plain(b.2, 2);
    lemma_modifier_part_plain(b.3, 3);
    lemma_formatted_normalized(b);
    let x = pc + (pa + (ps + (pu + lname)));
    // Splitting gives the modifier tokens and the key token.
    lemma_ascii_lowercase_plain(name);
    lemma_modifier_split(b.0, "ctrl"@, pa + (ps + (pu + lname)));
    lemma_modifier_split(b.1, "alt"@, ps + (pu + lname));
    lemma_modifier_split(b.2, "shift"@, pu + lname);
    lemma_modifier_split(b.3, "super"@, lname);
    lemma_split_single_piece(lname, '+');
    let tc = modifier_token(b.0, "ctrl"@);
    let ta = modifier_token(b.1, "alt"@);
    let ts = modifier_token(b.2, "shift"@);
    let tu = modifier_token(b.3, "super"@);
    let tk = seq![lname];
    assert(split_on(x, '+') =~= tc + (ta + (ts + (tu + tk))));
    let st0: ParseState = (false, false, false, false, None);
    lemma_read_modifier(0, b.0, ta + (ts + (tu + tk)), h, st0);
    let st1: ParseState = (b.0, false, false, false, None);
    lemma_read_modifier(1, b.1, ts + (tu + tk), h, st1);
    let st2: ParseState = (b.0, b.1, false, false, None);
    lemma_read_modifier(2, b.2, tu + tk, h, st2);
    let st3: ParseState = (b.0, b.1, b.2, false, None);
    lemma_read_modifier(3, b.3, tk, h, st3);
    let st4: ParseState = (b.0, b.1, b.2, b.3, None);
    lemma_trim_word(lname);
    assert(tk.drop_first() =~= Seq::<Seq<char>>::empty());
    assert(tk[0] == lname);
    assert(main_key_result(lname, h, true) == Ok::<(i32, Seq<char>), Seq<char>>((b.4, b.5)));
    let st5: ParseState = (b.0, b.1, b.2, b.3, Some((b.4, b.5)));
    assert(read_tokens(Seq::<Seq<char>>::empty(), h, st5) == Ok::<ParseState, Seq<char>>(st5));
    assert(read_tokens(tk, h, st4) == Ok::<ParseState, Seq<char>>(st5));
}

/// Text whose UTF-8 form is one byte is one ASCII character.
proof fn lemma_one_byte(x: Seq<char>)
    requires
        encode_utf8(x).len() == 1,
    ensures
        x.len() == 1,
        all_ascii(x),
        x[0] as u8 == encode_utf8(x)[0],
{
    lemma_encode_len(x.drop_first());
    assert(x.len() > 0);
    let c = x[0] as u32;
    assert(encode_scalar(c).len() >= 1);
    assert(encode_utf8(x) == encode_scalar(c) + encode_utf8(x.drop_first()));
    assert(encode_scalar(c).len() == 1);
    assert(has_width_1_encoding(c));
    assert(x.drop_first().len() == 0);
    assert(c <= 0x7f);
    vstd::utf8::char_u32_cast(x[0], c);
    assert(x[0] == (c as char));
    assert(x[0] <= '\u{7f}');
    assert forall|i: int| 0 <= i < x.len() implies '\0' <= #[trigger] x[i] <= '\u{7f}' by {
        assert(i == 0);
    }
    is_ascii_chars_encode_utf8(x);
}

proof fn lemma_encode_len(x: Seq<char>)
    ensures
        encode_utf8(x).len() >= x.len(),
    decreases x.len(),
{
    if x.len() > 0 {
        lemma_encode_len(x.drop_first());
        assert(encode_scalar(x[0] as u32).len() >= 1);
    }
}

/// A key read from a token reads back as itself when its name holds no
/// `+`.
proof fn lemma_main_key_reads_back(tok: Seq<char>, o: Seq<char>, ap: bool)
    requires
        main_key_result(tok, o, ap) matches Ok(k) && !k.1.contains('+'),
    ensures
        main_key_result(tok, o, ap) matches Ok(k) && key_reads_back(k.0, k.1),
    decreases (if ap { 1nat } else { 0nat }),
{
    reveal(key_reads_back);
    reveal_strlit("key");
    reveal_strlit("digit");
    reveal_strlit("alt");
    reveal_strlit("option");
    reveal_strlit("ctrl");
    reveal_strlit("control");
    reveal_strlit("shift");
    reveal_strlit("super");
    reveal_strlit("command");
    reveal_strlit("cmd");
    reveal_strlit("meta");
    reveal_strlit("win");
    let lower = lowercased(trim(tok));
    lemma_pattern_chars();
    if named_main_key(lower) is Some {
        lemma_table_reads_back(lower);
    } else if function_key(lower) is Some {
        assert(main_key_result(tok, o, ap) == Ok::<(i32, Seq<char>), Seq<char>>((function_key(lower)->0, lower)));
        let d = lower.drop_first();
        assert(d.len() > 0 && d[0] != '+' && d[0] != '-') by {
            if d.len() > 0 && d[0] == '+' {
                assert(lower[1] == '+');
            }
        }
        assert(all_digits(d));
        assert(d.last() == lower.last());
        assert forall|j: int| 0 <= j < lower.len() implies (lower[j] == 'f' || is_digit(#[trigger] lower[j])) by {
            if j > 0 {
                assert(lower[j] == d[j - 1]);
            }
        }
        assert(all_ascii(lower));
        assert(ascii_lowercase(lower) =~= lower);
        assert(!lower.contains('o') && !lower.contains('m') && !lower.contains('w'));
        assert(lower[0] != "alt"@[0] && lower[0] != "option"@[0] && lower[0] != "ctrl"@[0]
            && lower[0] != "control"@[0] && lower[0] != "shift"@[0] && lower[0] != "super"@[0]
            && lower[0] != "command"@[0] && lower[0] != "cmd"@[0] && lower[0] != "meta"@[0]
            && lower[0] != "win"@[0]);
        lemma_keeps_names(lower);
        lemma_trim_word(lower);
        assert(lowercased(trim(lower)) == lower);
        assert forall|o2: Seq<char>| #[trigger] main_key_result(lower, o2, true) == Ok::<(i32, Seq<char>), Seq<char>>(
            (function_key(lower)->0, lower),
        ) by {}
    } else if ap && has_prefix(lower, "key"@) && encode_utf8(lower.skip("key"@.len() as int)).len() == 1 {
        lemma_main_key_reads_back(lower.skip("key"@.len() as int), o, false);
    } else if ap && has_prefix(lower, "digit"@) && encode_utf8(lower.skip("digit"@.len() as int)).len() == 1 {
        lemma_main_key_reads_back(lower.skip("digit"@.len() as int), o, false);
    } else {
        assert(encode_utf8(lower).len() == 1);
        lemma_one_byte(lower);
        assert(main_key_result(tok, o, ap) is Ok);
        assert(('a' <= lower[0] <= 'z') || ('0' <= lower[0] <= '9'));
        assert(ascii_lowercase(lower) =~= lower);
        lemma_keeps_names(lower);
        lemma_trim_word(lower);
        assert(lowercased(trim(lower)) == lower);
        assert(!has_prefix(lower, "key"@));
        assert(!has_prefix(lower, "digit"@));
        assert forall|o2: Seq<char>| #[trigger] main_key_result(lower, o2, true) == main_key_result(tok, o, ap) by {}
    }
}

/// Reading more tokens keeps a main key already read, or fails.
proof fn lemma_read_tokens_keeps_key(tokens: Seq<Seq<char>>, hk: Seq<char>, st: ParseState)
    requires
        st.4 is Some,
        read_tokens(tokens, hk, st) is Ok,
    ensures
        read_tokens(tokens, hk, st) matches Ok(r) && r.4 == st.4,
    decreases tokens.len(),
{
    if tokens.len() > 0 {
        let t = trim(tokens[0]);
        let rest = tokens.drop_first();
        if t.len() == 0 {
        } else if t == "alt"@ || t == "option"@ {
            lemma_read_tokens_keeps_key(rest, hk, (st.0, true, st.2, st.3, st.4));
        } else if t == "ctrl"@ || t == "control"@ {
            lemma_read_tokens_keeps_key(rest, hk, (true, st.1, st.2, st.3, st.4));
        } else if t == "shift"@ {
            lemma_read_tokens_keeps_key(rest, hk, (st.0, st.1, true, st.3, st.4));
        } else if t == "super"@ || t == "command"@ || t == "cmd"@ || t == "meta"@ || t == "win"@ {
            lemma_read_tokens_keeps_key(rest, hk, (st.0, st.1, st.2, true, st.4));
        }
    }
}

/// The main key that reading tokens gives comes from one of the tokens.
proof fn lemma_read_tokens_key(tokens: Seq<Seq<char>>, hk: Seq<char>, st: ParseState) -> (i: int)
    requires
        st.4 is None,
        read_tokens(tokens, hk, st) matches Ok(r) && r.4 is Some,
    ensures
        0 <= i < tokens.len(),
        read_tokens(tokens, hk, st) matches Ok(r) && r.4 matches Some(key) && main_key_result(
            trim(tokens[i]),
            hk,
            true,
        ) == Ok::<(i32, Seq<char>), Seq<char>>(key),
    decreases tokens.len(),
{
    let t = trim(tokens[0]);
    let rest = tokens.drop_first();
    if t == "alt"@ || t == "option"@ {
        let j = lemma_read_tokens_key(rest, hk, (st.0, true, st.2, st.3, st.4));
        assert(rest[j] == tokens[j + 1]);
        j + 1
    } else if t == "ctrl"@ || t == "control"@ {
        let j = lemma_read_tokens_key(rest, hk, (true, st.1, st.2, st.3, st.4));
        assert(rest[j] == tokens[j + 1]);
        j + 1
    } else if t == "shift"@ {
        let j = lemma_read_tokens_key(rest, hk, (st.0, st.1, true, st.3, st.4));
        assert(rest[j] == tokens[j + 1]);
        j + 1
    } else if t == "super"@ || t == "command"@ || t == "cmd"@ || t == "meta"@ || t == "win"@ {
        let j = lemma_read_tokens_key(rest, hk, (st.0, st.1, st.2, true, st.4));
        assert(rest[j] == tokens[j + 1]);
        j + 1
    } else {
        let key = main_key_result(t, hk, true)->Ok_0;
        lemma_read_tokens_keeps_key(rest, hk, (st.0, st.1, st.2, st.3, Some(key)));
        0
    }
}

/// Law: a hotkey read from text, written back as text and read again, gives
/// the same binding, whenever its key name holds no `+` (which every binding
/// that `parse_hotkey_binding` returns meets).
pub proof fn lemma_parse_format_round_trip(s: Seq<char>, b: BindingView)
    requires
        parsed_hotkey(s) == Ok::<BindingView, Seq<char>>(b),
        !b.5.contains('+'),
    ensures
        parsed_hotkey(formatted_binding(b)) == Ok::<BindingView, Seq<char>>(b),
{
    let tokens = split_on(normalized_hotkey(s), '+');
    let i = lemma_read_tokens_key(tokens, s, (false, false, false, false, None));
    lemma_main_key_reads_back(trim(tokens[i]), s, true);
    lemma_format_then_parse(b);
}

/// Writes a binding as text: the modifiers, then the key name, joined by `+`.
pub fn format_hotkey_binding(binding: &HotkeyBinding) -> (r: String)
    ensures
        r@ == formatted_binding(binding@),
{
    let mut text = String::new();
    if binding.ctrl {
        text = text.concat("ctrl+");
    }
    if binding.alt {
        text = text.concat("alt+");
    }
    if binding.shift {
        text = text.concat("shift+");
    }
    if binding.super_key {
        text = text.concat("super+");
    }
    let r = text.concat(binding.key_token.as_str());
    proof {
        assert(r@ =~= formatted_binding(binding@));
    }
    r
}

/// Whether the modifier keys held match what `binding` needs: every modifier
/// it names is held and, when `strict`, no other one is.
pub open spec fn modifiers_agree(
    b: BindingView,
    ctrl_down: bool,
    alt_down: bool,
    shift_down: bool,
    super_down: bool,
    strict: bool,
) -> bool {
    &&& b.0 ==> ctrl_down
    &&& b.1 ==> alt_down
    &&& b.2 ==> shift_down
    &&& b.3 ==> super_down
    &&& strict ==> {
        &&& ctrl_down ==> b.0
        &&& alt_down ==> b.1
        &&& shift_down ==> b.2
        &&& super_down ==> b.3
    }
}

/// Law: strict matching is the narrower one: what matches strictly matches
/// in relaxed mode too, and with exactly the binding's modifiers held both
/// match.
pub proof fn lemma_strict_modifiers_narrower(
    b: BindingView,
    ctrl_down: bool,
    alt_down: bool,
    shift_down: bool,
    super_down: bool,
)
    ensures
        modifiers_agree(b, ctrl_down, alt_down, shift_down, super_down, true) ==> modifiers_agree(
            b,
            ctrl_down,
            alt_down,
            shift_down,
            super_down,
            false,
        ),
        modifiers_agree(b, b.0, b.1, b.2, b.3, true),
{
}

/// Whether the modifier keys held match what `binding` needs.
pub fn modifiers_match(
    binding: &HotkeyBinding,
    ctrl_down: bool,
    alt_down: bool,
    shift_down: bool,
    super_down: bool,
    strict: bool,
) -> (r: bool)
    ensures
        r == modifiers_agree(binding@, ctrl_down, alt_down, shift_down, super_down, strict),
{
    if binding.ctrl && !ctrl_down {
        return false;
    }
    if binding.alt && !alt_down {
        return false;
    }
    if binding.shift && !shift_down {
        return false;
    }
    if binding.super_key && !super_down {
        return false;
    }
    if strict {
        if ctrl_down && !binding.ctrl {
            return false;
        }
        if alt_down && !binding.alt {
            return false;
        }
        if shift_down && !binding.shift {
            return false;
        }
        if super_down && !binding.super_key {
            return false;
        }
    }
    true
}

/// The key for a one-character hotkey name.
pub open spec fn hotkey_char_key(c: char) -> Option<u16> {
    if c == 'a' {
        Some(KEY_A)
    } else if c == 'b' {
        Some(KEY_B)
    } else if c == 'c' {
        Some(KEY_C)
    } else if c == 'd' {
        Some(KEY_D)
    } else if c == 'e' {
        Some(KEY_E)
    } else if c == 'f' {
        Some(KEY_F)
    } else if c == 'g' {
        Some(KEY_G)
    } else if c == 'h' {
        Some(KEY_H)
    } else if c == 'i' {
        Some(KEY_I)
    } else if c == 'j' {
        Some(KEY_J)
    } else if c == 'k' {
        Some(KEY_K)
    } else if c == 'l' {
        Some(KEY_L)
    } else if c == 'm' {
        Some(KEY_M)
    } else if c == 'n' {
        Some(KEY_N)
    } else if c == 'o' {
        Some(KEY_O)
    } else if c == 'p' {
        Some(KEY_P)
    } else if c == 'q' {
        Some(KEY_Q)
    } else if c == 'r' {
        Some(KEY_R)
    } else if c == 's' {
        Some(KEY_S)
    } else if c == 't' {
        Some(KEY_T)
    } else if c == 'u' {
        Some(KEY_U)
    } else if c == 'v' {
        Some(KEY_V)
    } else if c == 'w' {
        Some(KEY_W)
    } else if c == 'x' {
        Some(KEY_X)
    } else if c == 'y' {
        Some(KEY_Y)
    } else if c == 'z' {
        Some(KEY_Z)
    } else if c == '0' {
        Some(KEY_0)
    } else if c == '1' {
        Some(KEY_1)
    } else if c == '2' {
        Some(KEY_2)
    } else if c == '3' {
        Some(KEY_3)
    } else if c == '4' {
        Some(KEY_4)
    } else if c == '5' {
        Some(KEY_5)
    } else if c == '6' {
        Some(KEY_6)
    } else if c == '7' {
        Some(KEY_7)
    } else if c == '8' {
        Some(KEY_8)
    } else if c == '9' {
        Some(KEY_9)
    } else if c == '/' {
        Some(KEY_SLASH)
    } else if c == '\\' {
        Some(KEY_BACKSLASH)
    } else if c == ';' {
        Some(KEY_SEMICOLON)
    } else if c == '\'' {
        Some(KEY_APOSTROPHE)
    } else if c == '[' {
        Some(KEY_LEFTBRACE)
    } else if c == ']' {
        Some(KEY_RIGHTBRACE)
    } else if c == '-' {
        Some(KEY_MINUS)
    } else if c == '=' {
        Some(KEY_EQUAL)
    } else if c == '`' {
        Some(KEY_GRAVE)
    } else if c == ',' {
        Some(KEY_COMMA)
    } else if c == '.' {
        Some(KEY_DOT)
    } else {
        None
    }
}

fn hotkey_char_key_lookup(c: char) -> (r: Option<u16>)
    ensures
        r == hotkey_char_key(c),
{
    if c == 'a' {
        return Some(KEY_A);
    }
    if c == 'b' {
        return Some(KEY_B);
    }
    if c == 'c' {
        return Some(KEY_C);
    }
    if c == 'd' {
        return Some(KEY_D);
    }
    if c == 'e' {
        return Some(KEY_E);
    }
    if c == 'f' {
        return Some(KEY_F);
    }
    if c == 'g' {
        return Some(KEY_G);
    }
    if c == 'h' {
        return Some(KEY_H);
    }
    if c == 'i' {
        return Some(KEY_I);
    }
    if c == 'j' {
        return Some(KEY_J);
    }
    if c == 'k' {
        return Some(KEY_K);
    }
    if c == 'l' {
        return Some(KEY_L);
    }
    if c == 'm' {
        return Some(KEY_M);
    }
    if c == 'n' {
        return Some(KEY_N);
    }
    if c == 'o' {
        return Some(KEY_O);
    }
    if c == 'p' {
        return Some(KEY_P);
    }
    if c == 'q' {
        return Some(KEY_Q);
    }
    if c == 'r' {
        return Some(KEY_R);
    }
    if c == 's' {
        return Some(KEY_S);
    }
    if c == 't' {
        return Some(KEY_T);
    }
    if c == 'u' {
        return Some(KEY_U);
    }
    if c == 'v' {
        return Some(KEY_V);
    }
    if c == 'w' {
        return Some(KEY_W);
    }
    if c == 'x' {
        return Some(KEY_X);
    }
    if c == 'y' {
        return Some(KEY_Y);
    }
    if c == 'z' {
        return Some(KEY_Z);
    }
    if c == '0' {
        return Some(KEY_0);
    }
    if c == '1' {
        return Some(KEY_1);
    }
    if c == '2' {
        return Some(KEY_2);
    }
    if c == '3' {
        return Some(KEY_3);
    }
    if c == '4' {
        return Some(KEY_4);
    }
    if c == '5' {
        return Some(KEY_5);
    }
    if c == '6' {
        return Some(KEY_6);
    }
    if c == '7' {
        return Some(KEY_7);
    }
    if c == '8' {
        return Some(KEY_8);
    }
    if c == '9' {
        return Some(KEY_9);
    }
    if c == '/' {
        return Some(KEY_SLASH);
    }
    if c == '\\' {
        return Some(KEY_BACKSLASH);
    }
    if c == ';' {
        return Some(KEY_SEMICOLON);
    }
    if c == '\'' {
        return Some(KEY_APOSTROPHE);
    }
    if c == '[' {
        return Some(KEY_LEFTBRACE);
    }
    if c == ']' {
        return Some(KEY_RIGHTBRACE);
    }
    if c == '-' {
        return Some(KEY_MINUS);
    }
    if c == '=' {
        return Some(KEY_EQUAL);
    }
    if c == '`' {
        return Some(KEY_GRAVE);
    }
    if c == ',' {
        return Some(KEY_COMMA);
    }
    if c == '.' {
        return Some(KEY_DOT);
    }
    None
}

/// The key for a longer hotkey name.
pub open spec fn hotkey_named_key(t: Seq<char>) -> Option<u16> {
    if t == "f1"@ {
        Some(KEY_F1)
    } else if t == "f2"@ {
        Some(KEY_F2)
    } else if t == "f3"@ {
        Some(KEY_F3)
    } else if t == "f4"@ {
        Some(KEY_F4)
    } else if t == "f5"@ {
        Some(KEY_F5)
    } else if t == "f6"@ {
        Some(KEY_F6)
    } else if t == "f7"@ {
        Some(KEY_F7)
    } else if t == "f8"@ {
        Some(KEY_F8)
    } else if t == "f9"@ {
        Some(KEY_F9)
    } else if t == "f10"@ {
        Some(KEY_F10)
    } else if t == "f11"@ {
        Some(KEY_F11)
    } else if t == "f12"@ {
        Some(KEY_F12)
    } else if t == "f13"@ {
        Some(KEY_F13)
    } else if t == "f14"@ {
        Some(KEY_F14)
    } else if t == "f15"@ {
        Some(KEY_F15)
    } else if t == "f16"@ {
        Some(KEY_F16)
    } else if t == "f17"@ {
        Some(KEY_F17)
    } else if t == "f18"@ {
        Some(KEY_F18)
    } else if t == "f19"@ {
        Some(KEY_F19)
    } else if t == "f20"@ {
        Some(KEY_F20)
    } else if t == "f21"@ {
        Some(KEY_F21)
    } else if t == "f22"@ {
        Some(KEY_F22)
    } else if t == "f23"@ {
        Some(KEY_F23)
    } else if t == "f24"@ {
        Some(KEY_F24)
    } else if t == "space"@ {
        Some(KEY_SPACE)
    } else if t == "tab"@ {
        Some(KEY_TAB)
    } else if t == "enter"@ {
        Some(KEY_ENTER)
    } else if t == "backspace"@ {
        Some(KEY_BACKSPACE)
    } else if t == "delete"@ {
        Some(KEY_DELETE)
    } else if t == "insert"@ {
        Some(KEY_INSERT)
    } else if t == "home"@ {
        Some(KEY_HOME)
    } else if t == "end"@ {
        Some(KEY_END)
    } else if t == "pageup"@ {
        Some(KEY_PAGEUP)
    } else if t == "pagedown"@ {
        Some(KEY_PAGEDOWN)
    } else if t == "up"@ {
        Some(KEY_UP)
    } else if t == "down"@ {
        Some(KEY_DOWN)
    } else if t == "left"@ {
        Some(KEY_LEFT)
    } else if t == "right"@ {
        Some(KEY_RIGHT)
    } else if t == "escape"@ {
        Some(KEY_ESC)
    } else if t == "numpad0"@ {
        Some(KEY_KP0)
    } else if t == "numpad1"@ {
        Some(KEY_KP1)
    } else if t == "numpad2"@ {
        Some(KEY_KP2)
    } else if t == "numpad3"@ {
        Some(KEY_KP3)
    } else if t == "numpad4"@ {
        Some(KEY_KP4)
    } else if t == "numpad5"@ {
        Some(KEY_KP5)
    } else if t == "numpad6"@ {
        Some(KEY_KP6)
    } else if t == "numpad7"@ {
        Some(KEY_KP7)
    } else if t == "numpad8"@ {
        Some(KEY_KP8)
    } else if t == "numpad9"@ {
        Some(KEY_KP9)
    } else if t == "numpadadd"@ {
        Some(KEY_KPPLUS)
    } else if t == "numpadsubtract"@ {
        Some(KEY_KPMINUS)
    } else if t == "numpadmultiply"@ {
        Some(KEY_KPASTERISK)
    } else if t == "numpaddivide"@ {
        Some(KEY_KPSLASH)
    } else if t == "numpaddecimal"@ {
        Some(KEY_KPDOT)
    } else if t == "numpadenter"@ {
        Some(KEY_KPENTER)
    } else if t == "intlbackslash"@ {
        Some(KEY_102ND)
    } else {
        None
    }
}

fn hotkey_named_key_lookup(t: &str) -> (r: Option<u16>)
    ensures
        r == hotkey_named_key(t@),
{
    if str_eq(t, "f1") {
        return Some(KEY_F1);
    }
    if str_eq(t, "f2") {
        return Some(KEY_F2);
    }
    if str_eq(t, "f3") {
        return Some(KEY_F3);
    }
    if str_eq(t, "f4") {
        return Some(KEY_F4);
    }
    if str_eq(t, "f5") {
        return Some(KEY_F5);
    }
    if str_eq(t, "f6") {
        return Some(KEY_F6);
    }
    if str_eq(t, "f7") {
        return Some(KEY_F7);
    }
    if str_eq(t, "f8") {
        return Some(KEY_F8);
    }
    if str_eq(t, "f9") {
        return Some(KEY_F9);
    }
    if str_eq(t, "f10") {
        return Some(KEY_F10);
    }
    if str_eq(t, "f11") {
        return Some(KEY_F11);
    }
    if str_eq(t, "f12") {
        return Some(KEY_F12);
    }
    if str_eq(t, "f13") {
        return Some(KEY_F13);
    }
    if str_eq(t, "f14") {
        return Some(KEY_F14);
    }
    if str_eq(t, "f15") {
        return Some(KEY_F15);
    }
    if str_eq(t, "f16") {
        return Some(KEY_F16);
    }
    if str_eq(t, "f17") {
        return Some(KEY_F17);
    }
    if str_eq(t, "f18") {
        return Some(KEY_F18);
    }
    if str_eq(t, "f19") {
        return Some(KEY_F19);
    }
    if str_eq(t, "f20") {
        return Some(KEY_F20);
    }
    if str_eq(t, "f21") {
        return Some(KEY_F21);
    }
    if str_eq(t, "f22") {
        return Some(KEY_F22);
    }
    if str_eq(t, "f23") {
        return Some(KEY_F23);
    }
    if str_eq(t, "f24") {
        return Some(KEY_F24);
    }
    if str_eq(t, "space") {
        return Some(KEY_SPACE);
    }
    if str_eq(t, "tab") {
        return Some(KEY_TAB);
    }
    if str_eq(t, "enter") {
        return Some(KEY_ENTER);
    }
    if str_eq(t, "backspace") {
        return Some(KEY_BACKSPACE);
    }
    if str_eq(t, "delete") {
        return Some(KEY_DELETE);
    }
    if str_eq(t, "insert") {
        return Some(KEY_INSERT);
    }
    if str_eq(t, "home") {
        return Some(KEY_HOME);
    }
    if str_eq(t, "end") {
        return Some(KEY_END);
    }
    if str_eq(t, "pageup") {
        return Some(KEY_PAGEUP);
    }
    if str_eq(t, "pagedown") {
        return Some(KEY_PAGEDOWN);
    }
    if str_eq(t, "up") {
        return Some(KEY_UP);
    }
    if str_eq(t, "down") {
        return Some(KEY_DOWN);
    }
    if str_eq(t, "left") {
        return Some(KEY_LEFT);
    }
    if str_eq(t, "right") {
        return Some(KEY_RIGHT);
    }
    if str_eq(t, "escape") {
        return Some(KEY_ESC);
    }
    if str_eq(t, "numpad0") {
        return Some(KEY_KP0);
    }
    if str_eq(t, "numpad1") {
        return Some(KEY_KP1);
    }
    if str_eq(t, "numpad2") {
        return Some(KEY_KP2);
    }
    if str_eq(t, "numpad3") {
        return Some(KEY_KP3);
    }
    if str_eq(t, "numpad4") {
        return Some(KEY_KP4);
    }
    if str_eq(t, "numpad5") {
        return Some(KEY_KP5);
    }
    if str_eq(t, "numpad6") {
        return Some(KEY_KP6);
    }
    if str_eq(t, "numpad7") {
        return Some(KEY_KP7);
    }
    if str_eq(t, "numpad8") {
        return Some(KEY_KP8);
    }
    if str_eq(t, "numpad9") {
        return Some(KEY_KP9);
    }
    if str_eq(t, "numpadadd") {
        return Some(KEY_KPPLUS);
    }
    if str_eq(t, "numpadsubtract") {
        return Some(KEY_KPMINUS);
    }
    if str_eq(t, "numpadmultiply") {
        return Some(KEY_KPASTERISK);
    }
    if str_eq(t, "numpaddivide") {
        return Some(KEY_KPSLASH);
    }
    if str_eq(t, "numpaddecimal") {
        return Some(KEY_KPDOT);
    }
    if str_eq(t, "numpadenter") {
        return Some(KEY_KPENTER);
    }
    if str_eq(t, "intlbackslash") {
        return Some(KEY_102ND);
    }
    None
}

/// The key that a hotkey name stands for, when it is a keyboard key: a
/// one-byte name by its character, any other name as written.
pub open spec fn hotkey_key(token: Seq<char>) -> Option<u16> {
    if encode_utf8(token).len() == 1 {
        hotkey_char_key(token[0])
    } else {
        hotkey_named_key(token)
    }
}

/// The Linux input-event code of the keyboard key that a hotkey name stands
/// for.
pub fn token_to_evdev_key(token: &str) -> (r: Option<u16>)
    ensures
        r == hotkey_key(token@),
{
    if token.as_bytes().len() == 1 {
        proof {
            if token@.len() == 0 {
                assert(encode_utf8(token@) =~= Seq::<u8>::empty());
            }
        }
        hotkey_char_key_lookup(token.get_char(0))
    } else {
        hotkey_named_key_lookup(token)
    }
}

/// The button that a mouse hotkey name stands for.
pub open spec fn mouse_button_key(token: Seq<char>) -> Option<u16> {
    if token == "mouseleft"@ {
        Some(BTN_LEFT)
    } else if token == "mouseright"@ {
        Some(BTN_RIGHT)
    } else if token == "mousemiddle"@ {
        Some(BTN_MIDDLE)
    } else if token == "mouse4"@ {
        Some(BTN_SIDE)
    } else if token == "mouse5"@ {
        Some(BTN_EXTRA)
    } else {
        None
    }
}

fn mouse_button_key_lookup(token: &str) -> (r: Option<u16>)
    ensures
        r == mouse_button_key(token@),
{
    if str_eq(token, "mouseleft") {
        Some(BTN_LEFT)
    } else if str_eq(token, "mouseright") {
        Some(BTN_RIGHT)
    } else if str_eq(token, "mousemiddle") {
        Some(BTN_MIDDLE)
    } else if str_eq(token, "mouse4") {
        Some(BTN_SIDE)
    } else if str_eq(token, "mouse5") {
        Some(BTN_EXTRA)
    } else {
        None
    }
}

/// Records a key event of an input device in the set of held keys: a press
/// (1) or repeat (2) adds the key, a release (0) removes it.
pub fn apply_key_event(keys: &mut HashSet<u16>, code: u16, value: i32)
    ensures
        (value == 1 || value == 2) ==> final(keys)@ == old(keys)@.insert(code),
        value == 0 ==> final(keys)@ == old(keys)@.remove(code),
        !(value == 0 || value == 1 || value == 2) ==> final(keys)@ == old(keys)@,
{
    if value == 1 || value == 2 {
        keys.insert(code);
    } else if value == 0 {
        keys.remove(&code);
    }
}

/// Law: after a key is pressed and let go it is no longer held, and no
/// other key changed.
pub proof fn lemma_press_release_clears(keys: Set<u16>, code: u16)
    ensures
        !keys.insert(code).remove(code).contains(code),
        forall|other: u16| other != code ==> (#[trigger] keys.insert(code).remove(code).contains(other) == keys.contains(other)),
{
}

/// When the mouse wheel last turned up and down, in milliseconds since the
/// epoch; zero when it has not.
#[derive(Clone, Copy, Debug, PartialEq, Eq, Structural)]
pub struct ScrollTimes {
    pub up_at: u64,
    pub down_at: u64,
}

impl ScrollTimes {
    /// No wheel movement seen yet.
    pub fn new() -> (r: Self)
        ensures
            r.up_at == 0 && r.down_at == 0,
    {
        ScrollTimes { up_at: 0, down_at: 0 }
    }

    /// Records a wheel event of `value` notches at `now_ms`.
    pub fn record_wheel(&mut self, value: i32, now_ms: u64)
        ensures
            value > 0 ==> *final(self) == (ScrollTimes { up_at: now_ms, down_at: old(self).down_at }),
            value < 0 ==> *final(self) == (ScrollTimes { up_at: old(self).up_at, down_at: now_ms }),
            value == 0 ==> *final(self) == *old(self),
    {
        if value > 0 {
            self.up_at = now_ms;
        } else if value < 0 {
            self.down_at = now_ms;
        }
    }
}

/// Law: a hotkey key name of one character names the key that carries it,
/// as the Linux input-event codes number the keys: each lowercase letter its
/// letter key, each digit its digit key, each punctuation character its own
/// key; no other ASCII character names a key.
pub proof fn lemma_char_keys_match_hotkeys()
    ensures
        hotkey_char_key('a') == Some(KEY_A),
        hotkey_char_key('b') == Some(KEY_B),
        hotkey_char_key('c') == Some(KEY_C),
        hotkey_char_key('d') == Some(KEY_D),
        hotkey_char_key('e') == Some(KEY_E),
        hotkey_char_key('f') == Some(KEY_F),
        hotkey_char_key('g') == Some(KEY_G),
        hotkey_char_key('h') == Some(KEY_H),
        hotkey_char_key('i') == Some(KEY_I),
        hotkey_char_key('j') == Some(KEY_J),
        hotkey_char_key('k') == Some(KEY_K),
        hotkey_char_key('l') == Some(KEY_L),
        hotkey_char_key('m') == Some(KEY_M),
        hotkey_char_key('n') == Some(KEY_N),
        hotkey_char_key('o') == Some(KEY_O),
        hotkey_char_key('p') == Some(KEY_P),
        hotkey_char_key('q') == Some(KEY_Q),
        hotkey_char_key('r') == Some(KEY_R),
        hotkey_char_key('s') == Some(KEY_S),
        hotkey_char_key('t') == Some(KEY_T),
        hotkey_char_key('u') == Some(KEY_U),
        hotkey_char_key('v') == Some(KEY_V),
        hotkey_char_key('w') == Some(KEY_W),
        hotkey_char_key('x') == Some(KEY_X),
        hotkey_char_key('y') == Some(KEY_Y),
        hotkey_char_key('z') == Some(KEY_Z),
        hotkey_char_key('0') == Some(KEY_0),
        hotkey_char_key('1') == Some(KEY_1),
        hotkey_char_key('2') == Some(KEY_2),
        hotkey_char_key('3') == Some(KEY_3),
        hotkey_char_key('4') == Some(KEY_4),
        hotkey_char_key('5') == Some(KEY_5),
        hotkey_char_key('6') == Some(KEY_6),
        hotkey_char_key('7') == Some(KEY_7),
        hotkey_char_key('8') == Some(KEY_8),
        hotkey_char_key('9') == Some(KEY_9),
        hotkey_char_key('/') == Some(KEY_SLASH),
        hotkey_char_key('\\') == Some(KEY_BACKSLASH),
        hotkey_char_key(';') == Some(KEY_SEMICOLON),
        hotkey_char_key('\'') == Some(KEY_APOSTROPHE),
        hotkey_char_key('[') == Some(KEY_LEFTBRACE),
        hotkey_char_key(']') == Some(KEY_RIGHTBRACE),
        hotkey_char_key('-') == Some(KEY_MINUS),
        hotkey_char_key('=') == Some(KEY_EQUAL),
        hotkey_char_key('`') == Some(KEY_GRAVE),
        hotkey_char_key(',') == Some(KEY_COMMA),
        hotkey_char_key('.') == Some(KEY_DOT),
        forall|c: char| (c as u32) < 128 && c != 'a' && c != 'b' && c != 'c' && c != 'd' && c != 'e' && c != 'f' && c != 'g' && c != 'h' && c != 'i' && c != 'j' && c != 'k' && c != 'l' && c != 'm' && c != 'n' && c != 'o' && c != 'p' && c != 'q' && c != 'r' && c != 's' && c != 't' && c != 'u' && c != 'v' && c != 'w' && c != 'x' && c != 'y' && c != 'z' && c != '0' && c != '1' && c != '2' && c != '3' && c != '4' && c != '5' && c != '6' && c != '7' && c != '8' && c != '9' && c != '/' && c != '\\' && c != ';' && c != '\'' && c != '[' && c != ']' && c != '-' && c != '=' && c != '`' && c != ',' && c != '.' ==> #[trigger] hotkey_char_key(c) is None,
{
}

/// Law: a hotkey key name of one ASCII character names the key of that
/// character.
pub proof fn lemma_one_char_hotkey_names(c: char)
    requires
        (c as u32) < 128,
    ensures
        hotkey_key(seq![c]) == hotkey_char_key(c),
{
    vstd::utf8::is_ascii_chars_encode_utf8(seq![c]);
}

/// Whether a wheel movement at `at` is recent enough at `now` to count as a
/// held scroll key.
pub open spec fn scroll_recent(at: u64, now: u64) -> bool {
    at != 0 && (if now >= at { now - at } else { 0 }) < SCROLL_WINDOW_MS
}

fn scroll_is_recent(at: u64, now: u64) -> (r: bool)
    ensures
        r == scroll_recent(at, now),
{
    at != 0 && now.saturating_sub(at) < SCROLL_WINDOW_MS
}

/// Whether `binding` is held, given the keys held, the wheel times and the
/// time now: its modifiers must match, then its main key must be held (a
/// scroll key counts as held shortly after the wheel turned that way).
pub open spec fn binding_held(
    b: BindingView,
    strict: bool,
    keys: Set<u16>,
    scroll: ScrollTimes,
    now: u64,
) -> bool {
    let ctrl = keys.contains(KEY_LEFTCTRL) || keys.contains(KEY_RIGHTCTRL);
    let alt = keys.contains(KEY_LEFTALT) || keys.contains(KEY_RIGHTALT);
    let shift = keys.contains(KEY_LEFTSHIFT) || keys.contains(KEY_RIGHTSHIFT);
    let sup = keys.contains(KEY_LEFTMETA) || keys.contains(KEY_RIGHTMETA);
    if !modifiers_agree(b, ctrl, alt, shift, sup, strict) {
        false
    } else if b.4 == VK_SCROLL_UP_PSEUDO {
        scroll_recent(scroll.up_at, now)
    } else if b.4 == VK_SCROLL_DOWN_PSEUDO {
        scroll_recent(scroll.down_at, now)
    } else if b.4 == VK_NUMPAD_ENTER_PSEUDO {
        keys.contains(KEY_KPENTER)
    } else if mouse_button_key(b.5) is Some {
        keys.contains(mouse_button_key(b.5)->0)
    } else if hotkey_key(b.5) is Some {
        keys.contains(hotkey_key(b.5)->0)
    } else {
        false
    }
}

/// Whether the modifier keys held match what `binding` needs, given the set
/// of held keys; left and right keys count alike.
pub fn modifiers_ok(binding: &HotkeyBinding, strict: bool, keys: &HashSet<u16>) -> (r: bool)
    ensures
        r == modifiers_agree(
            binding@,
            keys@.contains(KEY_LEFTCTRL) || keys@.contains(KEY_RIGHTCTRL),
            keys@.contains(KEY_LEFTALT) || keys@.contains(KEY_RIGHTALT),
            keys@.contains(KEY_LEFTSHIFT) || keys@.contains(KEY_RIGHTSHIFT),
            keys@.contains(KEY_LEFTMETA) || keys@.contains(KEY_RIGHTMETA),
            strict,
        ),
{
    let ctrl_down = keys.contains(&KEY_LEFTCTRL) || keys.contains(&KEY_RIGHTCTRL);
    let alt_down = keys.contains(&KEY_LEFTALT) || keys.contains(&KEY_RIGHTALT);
    let shift_down = keys.contains(&KEY_LEFTSHIFT) || keys.contains(&KEY_RIGHTSHIFT);
    let super_down = keys.contains(&KEY_LEFTMETA) || keys.contains(&KEY_RIGHTMETA);
    modifiers_match(binding, ctrl_down, alt_down, shift_down, super_down, strict)
}

/// Whether `binding` is held now.
pub fn is_binding_pressed(
    binding: &HotkeyBinding,
    strict: bool,
    keys: &HashSet<u16>,
    scroll: &ScrollTimes,
    now_ms: u64,
) -> (r: bool)
    ensures
        r == binding_held(binding@, strict, keys@, *scroll, now_ms),
{
    if !modifiers_ok(binding, strict, keys) {
        return false;
    }
    if binding.main_vk == VK_SCROLL_UP_PSEUDO {
        return scroll_is_recent(scroll.up_at, now_ms);
    }
    if binding.main_vk == VK_SCROLL_DOWN_PSEUDO {
        return scroll_is_recent(scroll.down_at, now_ms);
    }
    if binding.main_vk == VK_NUMPAD_ENTER_PSEUDO {
        return keys.contains(&KEY_KPENTER);
    }
    let token = binding.key_token.as_str();
    if let Some(button) = mouse_button_key_lookup(token) {
        return keys.contains(&button);
    }
    if let Some(key) = token_to_evdev_key(token) {
        return keys.contains(&key);
    }
    false
}

/// What a turn of the hotkey listener reports.
#[derive(Clone, Copy, Debug, PartialEq, Eq, Structural)]
pub enum HotkeyEdge {
    /// Nothing to do.
    Idle,
    /// The hotkey went down.
    Pressed,
    /// The hotkey went up.
    Released,
}

/// The outcome of one turn of the hotkey listener: whether the hotkey now
/// counts as held, whether the wait for its release is over, and the edge
/// to act on.
#[derive(Clone, Copy, Debug, PartialEq, Eq, Structural)]
pub struct HotkeyTick {
    pub was_pressed: bool,
    pub clear_release_suppression: bool,
    pub edge: HotkeyEdge,
}

/// One turn of the hotkey listener, as plain values.
pub open spec fn listener_tick(
    was_pressed: bool,
    currently_pressed: bool,
    capture_active: bool,
    suppress_until_release: bool,
    suppress_until_ms: u64,
    now_ms: u64,
) -> HotkeyTick {
    if capture_active {
        HotkeyTick { was_pressed: currently_pressed, clear_release_suppression: false, edge: HotkeyEdge::Idle }
    } else if suppress_until_release {
        HotkeyTick {
            was_pressed: currently_pressed,
            clear_release_suppression: !currently_pressed,
            edge: HotkeyEdge::Idle,
        }
    } else if now_ms < suppress_until_ms {
        HotkeyTick { was_pressed: currently_pressed, clear_release_suppression: false, edge: HotkeyEdge::Idle }
    } else {
        HotkeyTick {
            was_pressed: currently_pressed,
            clear_release_suppression: false,
            edge: if currently_pressed && !was_pressed {
                HotkeyEdge::Pressed
            } else if !currently_pressed && was_pressed {
                HotkeyEdge::Released
            } else {
                HotkeyEdge::Idle
            },
        }
    }
}

/// What the listener sees on a turn: whether the hotkey is held, whether a
/// new hotkey is being captured, the time until which it is ignored, and the
/// time now.
pub type ListenerObservation = (bool, bool, u64, u64);

/// The edges that the listener reports over a run of turns, starting from
/// whether the hotkey counted as held and whether it waits for a release.
pub open spec fn listener_edges(
    was_pressed: bool,
    suppress_until_release: bool,
    obs: Seq<ListenerObservation>,
) -> Seq<HotkeyEdge>
    decreases obs.len(),
{
    if obs.len() == 0 {
        seq![]
    } else {
        let o = obs[0];
        let t = listener_tick(was_pressed, o.0, o.1, suppress_until_release, o.2, o.3);
        seq![t.edge] + listener_edges(
            t.was_pressed,
            suppress_until_release && !t.clear_release_suppression,
            obs.drop_first(),
        )
    }
}

/// Law: once a hotkey is registered, the listener reports no edge until it
/// has seen the hotkey let go outside capture, so the press that set the
/// hotkey never starts the clicker.
pub proof fn lemma_registered_hotkey_waits_for_release(
    was_pressed: bool,
    obs: Seq<ListenerObservation>,
    j: int,
)
    requires
        0 <= j < obs.len(),
        forall|m: int| 0 <= m <= j ==> (#[trigger] obs[m]).0 || obs[m].1,
    ensures
        listener_edges(was_pressed, true, obs).len() == obs.len(),
        listener_edges(was_pressed, true, obs)[j] == HotkeyEdge::Idle,
    decreases j,
{
    lemma_listener_edges_len(was_pressed, true, obs);
    let o = obs[0];
    assert(o.0 || o.1);
    let t = listener_tick(was_pressed, o.0, o.1, true, o.2, o.3);
    if j > 0 {
        let rest = obs.drop_first();
        assert forall|m: int| 0 <= m <= j - 1 implies (#[trigger] rest[m]).0 || rest[m].1 by {
            assert(rest[m] == obs[m + 1]);
        }
        lemma_registered_hotkey_waits_for_release(t.was_pressed, rest, j - 1);
    }
}

proof fn lemma_listener_edges_len(was_pressed: bool, until_release: bool, obs: Seq<ListenerObservation>)
    ensures
        listener_edges(was_pressed, until_release, obs).len() == obs.len(),
    decreases obs.len(),
{
    if obs.len() > 0 {
        let o = obs[0];
        let t = listener_tick(was_pressed, o.0, o.1, until_release, o.2, o.3);
        lemma_listener_edges_len(t.was_pressed, until_release && !t.clear_release_suppression, obs.drop_first());
    }
}

/// Law: a turn of the listener reports a press only when the hotkey goes
/// from not held to held, and a release only when it goes from held to not
/// held, so holding the hotkey (or leaving it up) reports nothing. Outside
/// capture and suppression every such change is reported; inside them none
/// is. The hotkey then counts as held exactly when it is seen held.
pub proof fn lemma_listener_reports_changes(
    was_pressed: bool,
    currently_pressed: bool,
    capture_active: bool,
    suppress_until_release: bool,
    suppress_until_ms: u64,
    now_ms: u64,
)
    ensures
        ({
            let t = listener_tick(
                was_pressed,
                currently_pressed,
                capture_active,
                suppress_until_release,
                suppress_until_ms,
                now_ms,
            );
            &&& t.was_pressed == currently_pressed
            &&& t.edge == HotkeyEdge::Pressed ==> currently_pressed && !was_pressed
            &&& t.edge == HotkeyEdge::Released ==> !currently_pressed && was_pressed
            &&& was_pressed == currently_pressed ==> t.edge == HotkeyEdge::Idle
            &&& (capture_active || suppress_until_release || now_ms < suppress_until_ms) ==> t.edge
                == HotkeyEdge::Idle
            &&& (!capture_active && !suppress_until_release && now_ms >= suppress_until_ms) ==> ((t.edge
                == HotkeyEdge::Pressed <==> currently_pressed && !was_pressed) && (t.edge
                == HotkeyEdge::Released <==> !currently_pressed && was_pressed))
        }),
{
}

/// Law: over a run of turns, a press is reported at a turn only when the
/// hotkey is seen held there and was not held at the turn before (or, at
/// the first turn, before the run), so between two reported presses the
/// hotkey is seen let go: one press is reported per press of the hotkey.
pub proof fn lemma_one_press_edge_per_press(
    was_pressed: bool,
    suppress_until_release: bool,
    obs: Seq<ListenerObservation>,
    i: int,
)
    requires
        0 <= i < obs.len(),
        listener_edges(was_pressed, suppress_until_release, obs).len() == obs.len(),
        listener_edges(was_pressed, suppress_until_release, obs)[i] == HotkeyEdge::Pressed,
    ensures
        obs[i].0,
        i == 0 ==> !was_pressed,
        i > 0 ==> !obs[i - 1].0,
    decreases i,
{
    let o = obs[0];
    let t = listener_tick(was_pressed, o.0, o.1, suppress_until_release, o.2, o.3);
    let rest = obs.drop_first();
    let sur2 = suppress_until_release && !t.clear_release_suppression;
    lemma_listener_edges_len(t.was_pressed, sur2, rest);
    if i > 0 {
        assert(listener_edges(was_pressed, suppress_until_release, obs)[i] == listener_edges(
            t.was_pressed,
            sur2,
            rest,
        )[i - 1]);
        lemma_one_press_edge_per_press(t.was_pressed, sur2, rest, i - 1);
        assert(rest[i - 1] == obs[i]);
        if i > 1 {
            assert(rest[i - 2] == obs[i - 1]);
        } else {
            assert(t.was_pressed == o.0);
        }
    }
}

/// Law: a binding whose main key is the scroll-down key, with its modifiers
/// matched, is held exactly when the wheel last turned down (at a time
/// other than zero) less than 200 ms ago; when the wheel last turned up
/// does not matter. Likewise the scroll-up key goes by the last upward turn
/// alone.
pub proof fn lemma_scroll_keys_follow_their_direction(
    b: BindingView,
    strict: bool,
    keys: Set<u16>,
    scroll: ScrollTimes,
    now: u64,
    other: u64,
)
    requires
        modifiers_agree(
            b,
            keys.contains(KEY_LEFTCTRL) || keys.contains(KEY_RIGHTCTRL),
            keys.contains(KEY_LEFTALT) || keys.contains(KEY_RIGHTALT),
            keys.contains(KEY_LEFTSHIFT) || keys.contains(KEY_RIGHTSHIFT),
            keys.contains(KEY_LEFTMETA) || keys.contains(KEY_RIGHTMETA),
            strict,
        ),
    ensures
        b.4 == VK_SCROLL_DOWN_PSEUDO ==> binding_held(b, strict, keys, scroll, now) == (scroll.down_at != 0
            && (now < scroll.down_at || now - scroll.down_at < 200)),
        b.4 == VK_SCROLL_DOWN_PSEUDO ==> binding_held(
            b,
            strict,
            keys,
            ScrollTimes { up_at: other, down_at: scroll.down_at },
            now,
        ) == binding_held(b, strict, keys, scroll, now),
        b.4 == VK_SCROLL_UP_PSEUDO ==> binding_held(b, strict, keys, scroll, now) == (scroll.up_at != 0 && (
        now < scroll.up_at || now - scroll.up_at < 200)),
        b.4 == VK_SCROLL_UP_PSEUDO ==> binding_held(
            b,
            strict,
            keys,
            ScrollTimes { up_at: scroll.up_at, down_at: other },
            now,
        ) == binding_held(b, strict, keys, scroll, now),
{
}

/// One turn of the hotkey listener. While a new hotkey is being captured,
/// and while the listener waits for the hotkey to be let go after it was
/// registered or until a suppression time has passed, it only tracks the
/// key; otherwise a change of the key's state is an edge.
pub fn hotkey_listener_step(
    was_pressed: bool,
    currently_pressed: bool,
    capture_active: bool,
    suppress_until_release: bool,
    suppress_until_ms: u64,
    now_ms: u64,
) -> (r: HotkeyTick)
    ensures
        r == listener_tick(
            was_pressed,
            currently_pressed,
            capture_active,
            suppress_until_release,
            suppress_until_ms,
            now_ms,
        ),
        r.was_pressed == currently_pressed,
        r.edge == HotkeyEdge::Pressed ==> currently_pressed && !was_pressed,
        r.edge == HotkeyEdge::Released ==> !currently_pressed && was_pressed,
{
    if capture_active {
        return HotkeyTick { was_pressed: currently_pressed, clear_release_suppression: false, edge: HotkeyEdge::Idle };
    }
    if suppress_until_release {
        if currently_pressed {
            return HotkeyTick { was_pressed: true, clear_release_suppression: false, edge: HotkeyEdge::Idle };
        }
        return HotkeyTick { was_pressed: false, clear_release_suppression: true, edge: HotkeyEdge::Idle };
    }
    if now_ms < suppress_until_ms {
        return HotkeyTick { was_pressed: currently_pressed, clear_release_suppression: false, edge: HotkeyEdge::Idle };
    }
    let edge = if currently_pressed && !was_pressed {
        HotkeyEdge::Pressed
    } else if !currently_pressed && was_pressed {
        HotkeyEdge::Released
    } else {
        HotkeyEdge::Idle
    };
    HotkeyTick { was_pressed: currently_pressed, clear_release_suppression: false, edge }
}

/// What the clicker is asked to do in answer to the hotkey.
#[derive(Clone, Copy, Debug, PartialEq, Eq, Structural)]
pub enum ClickerCommand {
    Nothing,
    Toggle,
    Start,
    /// Stop, for the reason that `hold_release_stop_reason` gives.
    Stop,
}

/// The stop reason when a held hotkey is let go.
pub fn hold_release_stop_reason() -> (r: String)
    ensures
        r@ == "Stopped from hold hotkey"@,
{
    String::from_str("Stopped from hold hotkey")
}

/// What a press of the hotkey does in `mode`: toggle the clicker in
/// `Toggle` mode, start it in `Hold` mode, nothing in any other.
pub fn handle_hotkey_pressed(mode: &str) -> (r: ClickerCommand)
    ensures
        mode@ == "Toggle"@ ==> r == ClickerCommand::Toggle,
        mode@ != "Toggle"@ && mode@ == "Hold"@ ==> r == ClickerCommand::Start,
        mode@ != "Toggle"@ && mode@ != "Hold"@ ==> r == ClickerCommand::Nothing,
{
    if str_eq(mode, "Toggle") {
        ClickerCommand::Toggle
    } else if str_eq(mode, "Hold") {
        ClickerCommand::Start
    } else {
        ClickerCommand::Nothing
    }
}

/// What letting go of the hotkey does in `mode`: stop the clicker in `Hold`
/// mode, nothing in any other.
pub fn handle_hotkey_released(mode: &str) -> (r: ClickerCommand)
    ensures
        mode@ == "Hold"@ ==> r == ClickerCommand::Stop,
        mode@ != "Hold"@ ==> r == ClickerCommand::Nothing,
{
    if str_eq(mode, "Hold") {
        ClickerCommand::Stop
    } else {
        ClickerCommand::Nothing
    }
}

/// A hotkey ready to be installed: the binding, the time until which the
/// listener ignores it, whether it is also ignored until it is let go, and
/// its text as shown back.
pub struct HotkeyRegistration {
    pub binding: HotkeyBinding,
    pub suppress_until_ms: u64,
    pub suppress_until_release: bool,
    pub display: String,
}

/// Registers the hotkey `hotkey` at `now_ms`: parses it, ignores it for the
/// next 250 ms and until it is let go, and gives back its text.
pub fn register_hotkey_inner(hotkey: &str, now_ms: u64) -> (r: Result<HotkeyRegistration, String>)
    ensures
        parsed_hotkey(hotkey@) is Err <==> r is Err,
        r matches Err(e) ==> parsed_hotkey(hotkey@) == Err::<BindingView, Seq<char>>(e@),
        r matches Ok(reg) ==> {
            &&& parsed_hotkey(hotkey@) == Ok::<BindingView, Seq<char>>(reg.binding@)
            &&& reg.suppress_until_ms == if now_ms + 250 <= u64::MAX {
                (now_ms + 250) as u64
            } else {
                u64::MAX
            }
            &&& reg.suppress_until_release
            &&& reg.display@ == formatted_binding(reg.binding@)
        },
{
    let binding = match parse_hotkey_binding(hotkey) {
        Ok(b) => b,
        Err(e) => {
            return Err(e);
        },
    };
    let display = format_hotkey_binding(&binding);
    Ok(
        HotkeyRegistration {
            binding,
            suppress_until_ms: now_ms.saturating_add(250),
            suppress_until_release: true,
            display,
        },
    )
}

} // verus!
