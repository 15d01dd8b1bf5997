//! What the launcher hands over, and what it is handed back.
//!
//! The launcher keeps no session. It starts the program with a marker
//! that shows who started it, a selector that says how the last menu
//! was left, the token of the row that was chosen, if any, and at most
//! one argument. This module reads those four, and writes tokens so
//! that they come back unharmed.

use vstd::prelude::*;
use vstd::utf8::{encode_utf8, is_ascii_chars, is_ascii_chars_encode_utf8};
use crate::error::Error;
use crate::text::{parse_u8, selector_value, text_view};
use crate::token::{doc_of_token, lemma_tag_bytes, token_of_doc, Info, InfoView};
use crate::wire::{
    armor, armor_char, armored_bytes, armored_text, pack, packed_bytes, packed_document,
    plain_entry, short, unarmor, unpack,
};

verus! {

/// The variable of the environment that holds the launcher's marker.
pub const OUTSIDE: &'static str = "ROFI_OUTSIDE";

/// The variable that holds the selector.
pub const RETV: &'static str = "ROFI_RETV";

/// The variable that holds the token of the chosen row.
pub const INFO: &'static str = "ROFI_INFO";

/// How the last menu was left.
#[derive(Debug, PartialEq, Eq)]
pub enum Retv {
    /// No menu was shown yet.
    Initial,
    /// A row was chosen; this is its text.
    Entry(String),
    /// The user typed this text instead of choosing a row.
    Custom(String),
    /// A key binding was used.
    Key(Keybinding),
}

/// A key binding, and the row it was used on, if it was used on one.
#[derive(Debug, PartialEq, Eq)]
pub struct Keybinding {
    /// The number of the binding, from 0 to 18.
    pub key: u8,
    /// The text of the row, if there was one.
    pub entry: Option<String>,
}

/// One start of the program by the launcher.
#[derive(Debug, PartialEq, Eq)]
pub struct Invocation {
    /// The launcher's marker.
    pub outside: String,
    /// The token of the chosen row, if the launcher handed one over.
    pub info: Option<Info>,
    /// How the last menu was left.
    pub how: Retv,
}

/// What a `Keybinding` is, in contracts.
pub struct KeybindingView {
    pub key: u8,
    pub entry: Option<Seq<char>>,
}

/// What a `Retv` is, in contracts.
pub enum RetvView {
    Initial,
    Entry(Seq<char>),
    Custom(Seq<char>),
    Key(KeybindingView),
}

/// What an `Invocation` is, in contracts.
pub struct InvocationView {
    pub outside: Seq<char>,
    pub info: Option<InfoView>,
    pub how: RetvView,
}

impl View for Keybinding {
    type V = KeybindingView;

    open spec fn view(&self) -> KeybindingView {
        KeybindingView { key: self.key, entry: text_view(self.entry) }
    }
}

impl View for Retv {
    type V = RetvView;

    open spec fn view(&self) -> RetvView {
        match self {
            Retv::Initial => RetvView::Initial,
            Retv::Entry(text) => RetvView::Entry(text@),
            Retv::Custom(text) => RetvView::Custom(text@),
            Retv::Key(binding) => RetvView::Key(binding@),
        }
    }
}

impl View for Invocation {
    type V = InvocationView;

    open spec fn view(&self) -> InvocationView {
        InvocationView {
            outside: self.outside@,
            info: match self.info {
                Some(info) => Some(info@),
                None => None,
            },
            how: self.how@,
        }
    }
}

/// Whether a token text is short enough to be taken apart: eight
/// bytes of headroom are needed to size the buffer for its bytes.
pub open spec fn readable(text: Seq<char>) -> bool {
    encode_utf8(text).len() + 8 <= usize::MAX
}

/// Whether a token can be packed: the text it carries, if it carries
/// one, is short enough for the length field of a packed text.
pub open spec fn packable(info: InfoView) -> bool {
    info matches InfoView::Create(text) ==> short(text)
}

/// The token that a text stands for, if it stands for one: the text is
/// base64, its bytes are a packed document, and the document is a
/// token's.
pub open spec fn token_of_text(text: Seq<char>) -> Option<InfoView> {
    if !readable(text) {
        None
    } else {
        match armored_bytes(text) {
            None => None,
            Some(bytes) => match packed_document(bytes) {
                None => None,
                Some(doc) => token_of_doc(doc),
            },
        }
    }
}

/// Whether so many bytes fit a token text: four characters stand for
/// three bytes, and eight more are needed to read the text again.
pub open spec fn fits(bytes: nat) -> bool {
    (bytes + 2) / 3 * 4 + 8 <= usize::MAX
}

/// The text that stands for a token: its document, packed, in base64.
/// There is none where the token cannot be packed, where the outside
/// writer gives nothing, or where the text would be too long to be
/// addressed and read again.
pub open spec fn text_of_token(info: InfoView) -> Option<Seq<char>> {
    if !packable(info) {
        None
    } else {
        match packed_bytes(doc_of_token(info)) {
            None => None,
            Some(bytes) => if fits(bytes.len()) {
                Some(armored_text(bytes))
            } else {
                None
            },
        }
    }
}

/// The field tag that leads a token in a row's metadata, and the
/// separator after it.
pub open spec fn info_prefix() -> Seq<char> {
    "info\x1f"@
}

/// Whether `c` may stand in a token: it is none of the characters by
/// which the launcher tells rows and their fields apart.
pub open spec fn field_safe(c: char) -> bool {
    c != '\0' && c != '\x1f' && c != '\n' && c != '\r'
}

/// Writes a token as text.
///
/// The text is not empty, it is made of letters, digits, `+`, `/` and
/// `=` only, and `dec` reads the token back from it.
/// `Error::InvalidInput` comes exactly where `text_of_token` has no
/// text for the token: where the outside writer gave nothing, or the
/// token is too long to be written, addressed or read again.
pub fn enc(info: Info) -> (r: Result<String, Error>)
    ensures
        match r {
            Ok(text) => {
                &&& text_of_token(info@) == Some(text@)
                &&& token_of_text(text@) == Some(info@)
                &&& text@.len() > 0
                &&& forall|i: int| 0 <= i < text@.len() ==> armor_char(#[trigger] text@[i])
            },
            Err(e) => e == Error::InvalidInput && text_of_token(info@) is None,
        },
{
    if let Info::Create(text) = &info {
        if text.as_str().as_bytes().len() > 0xffff_ffff {
            return Err(Error::InvalidInput);
        }
    }
    let doc = info.to_document();
    proof {
        lemma_tag_bytes(info@);
        assert(plain_entry(doc@));
    }
    let bytes = match pack(&doc) {
        Some(bytes) => bytes,
        None => {
            return Err(Error::InvalidInput);
        },
    };
    let groups = bytes.len() / 3 + if bytes.len() % 3 > 0 {
        1usize
    } else {
        0usize
    };
    assert(groups == (bytes.len() + 2) / 3);
    if groups > (usize::MAX - 8) / 4 {
        return Err(Error::InvalidInput);
    }
    let text = armor(bytes.as_slice());
    proof {
        crate::token::lemma_token_document_round_trip(info@);
        assert(is_ascii_chars(text@)) by {
            assert forall|i: int| 0 <= i < text@.len() implies '\0' <= #[trigger] text@[i]
                <= '\u{7f}' by {
                assert(armor_char(text@[i]));
            }
        }
        is_ascii_chars_encode_utf8(text@);
    }
    Ok(text)
}

/// Reads a token from text: the text is taken apart as base64, a
/// packed document is read from its bytes, and the document is read as
/// a token. Where one of the three gives nothing, that is
/// `Error::Decode`.
pub fn dec(msg: String) -> (r: Result<Info, Error>)
    ensures
        match r {
            Ok(info) => token_of_text(msg@) == Some(info@),
            Err(e) => e == Error::Decode && token_of_text(msg@) is None,
        },
{
    let text = msg.as_str();
    if text.as_bytes().len() > usize::MAX - 8 {
        return Err(Error::Decode);
    }
    let bytes = match unarmor(text) {
        Some(bytes) => bytes,
        None => {
            return Err(Error::Decode);
        },
    };
    let doc = match unpack(bytes.as_slice()) {
        Some(doc) => doc,
        None => {
            return Err(Error::Decode);
        },
    };
    match Info::from_document(&doc) {
        Some(info) => Ok(info),
        None => Err(Error::Decode),
    }
}

/// The metadata of a menu row that carries `info`: the field tag, the
/// separator, and the token as text. None of its characters after the
/// separator is one that the launcher gives a meaning to.
pub fn info_string(info: Info) -> (r: Result<String, Error>)
    ensures
        match r {
            Ok(meta) => {
                &&& text_of_token(info@) matches Some(text)
                &&& meta@ == info_prefix() + text
                &&& token_of_text(text) == Some(info@)
                &&& text.len() > 0
                &&& forall|i: int| 0 <= i < text.len() ==> field_safe(#[trigger] text[i])
            },
            Err(e) => e == Error::InvalidInput && text_of_token(info@) is None,
        },
{
    let text = match enc(info) {
        Ok(text) => text,
        Err(e) => {
            return Err(e);
        },
    };
    let mut meta = "info\x1f".to_owned();
    meta.append(text.as_str());
    proof {
        assert forall|i: int| 0 <= i < text@.len() implies field_safe(#[trigger] text@[i]) by {
            assert(armor_char(text@[i]));
        }
    }
    Ok(meta)
}

/// How the menu was left, by the selector and the argument: 0 before
/// any menu, 1 for a chosen row, 2 for typed text, 10 to 28 for the
/// key bindings 0 to 18. A chosen row and typed text need the
/// argument; any other selector is none.
pub open spec fn mode_of(selector: u8, selected: Option<Seq<char>>) -> Option<RetvView> {
    if selector == 0 {
        Some(RetvView::Initial)
    } else if selector == 1 {
        match selected {
            Some(text) => Some(RetvView::Entry(text)),
            None => None,
        }
    } else if selector == 2 {
        match selected {
            Some(text) => Some(RetvView::Custom(text)),
            None => None,
        }
    } else if 10 <= selector <= 28 {
        Some(RetvView::Key(KeybindingView { key: (selector - 10) as u8, entry: selected }))
    } else {
        None
    }
}

/// What the four strings of an invocation mean, or the first thing
/// that is wrong with them.
pub open spec fn interpret(
    outside: Option<Seq<char>>,
    retv: Option<Seq<char>>,
    info: Option<Seq<char>>,
    selected: Option<Seq<char>>,
) -> Result<InvocationView, Error> {
    if outside is None || retv is None {
        Err(Error::Config)
    } else if selector_value(retv->0) is None {
        Err(Error::Format)
    } else if info is Some && token_of_text(info->0) is None {
        Err(Error::Decode)
    } else {
        match mode_of(selector_value(retv->0)->0, selected) {
            None => Err(Error::Format),
            Some(how) => Ok(
                InvocationView {
                    outside: outside->0,
                    info: match info {
                        Some(text) => token_of_text(text),
                        None => None,
                    },
                    how,
                },
            ),
        }
    }
}

impl Invocation {
    /// Reads an invocation from the launcher's marker, the selector,
    /// the token text and the argument, each as the environment and the
    /// command line gave it, or `None` where it was not there.
    ///
    /// Without the marker or the selector the program was not started
    /// by the launcher: `Error::Config`. A selector that is no number
    /// from 0 to 255, or no selector of the launcher's, or that needs
    /// an argument that is not there, is `Error::Format`. A token that
    /// cannot be read is `Error::Decode`; a missing one is no error.
    pub fn env(
        outside: Option<String>,
        retv: Option<String>,
        info: Option<String>,
        selected: Option<String>,
    ) -> (r: Result<Invocation, Error>)
        ensures
            match r {
                Ok(invocation) => Ok::<InvocationView, Error>(invocation@) == interpret(
                    text_view(outside),
                    text_view(retv),
                    text_view(info),
                    text_view(selected),
                ),
                Err(e) => Err::<InvocationView, Error>(e) == interpret(
                    text_view(outside),
                    text_view(retv),
                    text_view(info),
                    text_view(selected),
                ),
            },
    {
        let outside = match outside {
            Some(v) => v,
            None => {
                return Err(Error::Config);
            },
        };
        let selector = match retv {
            Some(v) => match parse_u8(v.as_str()) {
                Some(n) => n,
                None => {
                    return Err(Error::Format);
                },
            },
            None => {
                return Err(Error::Config);
            },
        };
        let info = match info {
            Some(v) => match dec(v) {
                Ok(token) => Some(token),
                Err(e) => {
                    return Err(e);
                },
            },
            None => None,
        };
        let how = if selector == 0 {
            Retv::Initial
        } else if selector == 1 {
            match selected {
                Some(text) => Retv::Entry(text),
                None => {
                    return Err(Error::Format);
                },
            }
        } else if selector == 2 {
            match selected {
                Some(text) => Retv::Custom(text),
                None => {
                    return Err(Error::Format);
                },
            }
        } else if 10 <= selector && selector <= 28 {
            Retv::Key(Keybinding { key: selector - 10, entry: selected })
        } else {
            return Err(Error::Format);
        };
        Ok(Invocation { outside, info, how })
    }
}

} // verus!
