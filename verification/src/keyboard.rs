//! The keyboard interrupt's decoding path.
//!
//! Each keyboard interrupt delivers one scancode byte from the data port.
//! The byte feeds a stateful scancode decoder; most bytes complete no key
//! yet, and a protocol error completes none either — both are benign. A
//! completed, displayable key is shown on the screen writer: a character
//! key by its encoding, any other key by its name. The end-of-interrupt
//! for the keyboard vector is decided last, after the display work.

use crate::interrupts::InterruptIndex;
use crate::pics::ChainedPics;
use crate::pics::EndOfInterrupt;
use crate::vga_buffer::Writer;
use crate::vga_buffer::WriterState;
use crate::vga_buffer::spec_write_bytes;
use vstd::prelude::*;
use vstd::string::StringSliceAdditionalSpecFns;
use vstd::utf8::encode_utf8;

verus! {

#[verifier::external_type_specification]
#[verifier::external_body]
pub struct ExKeyEvent(pc_keyboard::KeyEvent);

#[verifier::external_type_specification]
#[verifier::external_body]
pub struct ExDecodedKey(pc_keyboard::DecodedKey);

#[verifier::external_type_specification]
#[verifier::external_body]
pub struct ExKeyCode(pc_keyboard::KeyCode);

#[verifier::external_type_specification]
#[verifier::external_body]
pub struct ExError(pc_keyboard::Error);

/// The scancode decoder for the US 104-key layout, scancode set 1. The
/// decoder type of the keyboard crate is generic over traits the
/// verifier cannot see, so the whole struct is taken on trust and its
/// methods are reached through the wrappers below.
#[verifier::external_body]
pub struct KeyboardDecoder {
    state: pc_keyboard::PS2Keyboard<pc_keyboard::layouts::Us104Key, pc_keyboard::ScancodeSet1>,
}

/// Relies on pc_keyboard::PS2Keyboard::new: a fresh decoder for the US
/// 104-key layout and scancode set 1, with control keys left alone.
#[verifier::external_body]
fn new_decoder() -> KeyboardDecoder {
    KeyboardDecoder {
        state: pc_keyboard::PS2Keyboard::new(
            pc_keyboard::ScancodeSet1::new(),
            pc_keyboard::layouts::Us104Key,
            pc_keyboard::HandleControl::Ignore,
        ),
    }
}

/// Relies on pc_keyboard::PS2Keyboard::add_byte: advance the decoder's
/// state machine by one scancode byte; a completed key event, nothing
/// yet (a multi-byte sequence still accumulating), or a protocol error.
#[verifier::external_body]
fn kb_add_byte(kb: &mut KeyboardDecoder, byte: u8) -> Result<
    Option<pc_keyboard::KeyEvent>,
    pc_keyboard::Error,
> {
    kb.state.add_byte(byte)
}

/// Relies on pc_keyboard::PS2Keyboard::process_keyevent: turn a key event
/// into a decoded key under the current modifier state, or nothing for
/// events with no displayable meaning (releases, bare modifiers).
#[verifier::external_body]
fn kb_process_keyevent(kb: &mut KeyboardDecoder, ev: pc_keyboard::KeyEvent) -> Option<
    pc_keyboard::DecodedKey,
> {
    kb.state.process_keyevent(ev)
}

/// A decoded key, split into the two shapes the display path handles.
enum KeyShape {
    /// The key produced a Unicode character.
    Unicode(char),
    /// The key has no character; only its key code is known.
    Raw(pc_keyboard::KeyCode),
}

/// Relies on pc_keyboard::DecodedKey: tell its two variants apart, moving
/// the fields.
#[verifier::external_body]
fn decoded_key_parts(k: pc_keyboard::DecodedKey) -> KeyShape {
    match k {
        pc_keyboard::DecodedKey::Unicode(c) => KeyShape::Unicode(c),
        pc_keyboard::DecodedKey::RawKey(code) => KeyShape::Raw(code),
    }
}

/// Relies on the debug formatting of pc_keyboard::KeyCode: the key's
/// name, used to show keys that have no character.
#[verifier::external_body]
fn key_code_text(code: pc_keyboard::KeyCode) -> String {
    format!("{:?}", code)
}

/// Relies on String::from for char: a string holding exactly the one
/// character.
#[verifier::external_body]
fn char_to_string(c: char) -> (s: String)
    ensures
        s@ == seq![c],
{
    String::from(c)
}

/// The textual form of a decoded key: a character, or a key name.
pub enum KeyText {
    /// A character key.
    Unicode(char),
    /// The name of a key without a character.
    Raw(String),
}

/// The writer state after one decoded key is shown: the character's
/// encoding, or the key name's encoding, written byte by byte under the
/// writer's replacement rule.
pub open spec fn spec_key_output(v: WriterState, t: KeyText) -> WriterState {
    match t {
        KeyText::Unicode(c) => spec_write_bytes(v, encode_utf8(seq![c])),
        KeyText::Raw(s) => spec_write_bytes(v, encode_utf8(s@)),
    }
}

/// Show one decoded key on the display: a character key shows the
/// character's encoding, a raw key shows its name.
pub fn write_decoded(writer: &mut Writer, key: &KeyText)
    requires
        old(writer).wf(),
    ensures
        final(writer).wf(),
        final(writer)@ == spec_key_output(old(writer)@, *key),
{
    match key {
        KeyText::Unicode(c) => {
            let s = char_to_string(*c);
            writer.write_string(s.as_str());
        },
        KeyText::Raw(s) => {
            writer.write_string(s.as_str());
        },
    }
}

impl KeyboardDecoder {
    /// A fresh decoder with no partial scancode sequence pending.
    pub fn new() -> KeyboardDecoder {
        new_decoder()
    }

    /// Handle one keyboard interrupt: feed the scancode read from the
    /// data port to the decoder. A completed, displayable key is shown on
    /// the display exactly as `write_decoded` shows it; a partial
    /// sequence or a protocol error shows nothing. Either way the
    /// end-of-interrupt decision for the keyboard vector is returned, to
    /// be issued before the handler returns.
    pub fn keyboard_interrupt_handler(
        &mut self,
        scancode: u8,
        writer: &mut Writer,
        pics: &mut ChainedPics,
    ) -> (r: EndOfInterrupt)
        requires
            old(writer).wf(),
            old(pics).wf(),
            old(pics).is_initialized(),
        ensures
            final(writer).wf(),
            *final(pics) == *old(pics),
            r == old(pics).spec_acknowledge(InterruptIndex::Keyboard.spec_vector()),
            final(writer)@ == old(writer)@ || (exists|t: KeyText|
                final(writer)@ == spec_key_output(old(writer)@, t)),
    {
        match kb_add_byte(self, scancode) {
            Ok(Some(ev)) => {
                match kb_process_keyevent(self, ev) {
                    Some(k) => {
                        match decoded_key_parts(k) {
                            KeyShape::Unicode(c) => {
                                let t = KeyText::Unicode(c);
                                write_decoded(writer, &t);
                                proof {
                                    assert(writer@ == spec_key_output(old(writer)@, t));
                                }
                            },
                            KeyShape::Raw(code) => {
                                let s = key_code_text(code);
                                let t = KeyText::Raw(s);
                                write_decoded(writer, &t);
                                proof {
                                    assert(writer@ == spec_key_output(old(writer)@, t));
                                }
                            },
                        }
                    },
                    None => {},
                }
            },
            Ok(None) => {},
            Err(_) => {},
        }
        pics.acknowledge(InterruptIndex::Keyboard.as_u8())
    }
}

} // verus!
