//! What can be wrong with a request.

use vstd::prelude::*;
use vstd::string::*;

verus! {

/// Why a key spec, a key name, a text or a list of keys was refused.
#[derive(Debug, Clone)]
pub enum KeyError {
    /// A key spec without a single token.
    EmptySpec,
    /// A token that is neither a modifier nor the base key of its key spec.
    UnexpectedToken { token: String, spec: String },
    /// A key name that stands for no keysym.
    UnsupportedKey { name: String, resolved: String },
    /// The NUL character, where it has no keysym.
    NulCharacter,
    /// A token that does not name a modifier where one is needed.
    NotAModifier { token: String },
    /// An empty list of keys to hold.
    EmptyHold,
}

/// The mathematical value of a [`KeyError`].
pub enum KeyErrorView {
    EmptySpec,
    UnexpectedToken { token: Seq<char>, spec: Seq<char> },
    UnsupportedKey { name: Seq<char>, resolved: Seq<char> },
    NulCharacter,
    NotAModifier { token: Seq<char> },
    EmptyHold,
}

impl View for KeyError {
    type V = KeyErrorView;

    open spec fn view(&self) -> KeyErrorView {
        match *self {
            KeyError::EmptySpec => KeyErrorView::EmptySpec,
            KeyError::UnexpectedToken { token, spec } => KeyErrorView::UnexpectedToken {
                token: token@,
                spec: spec@,
            },
            KeyError::UnsupportedKey { name, resolved } => KeyErrorView::UnsupportedKey {
                name: name@,
                resolved: resolved@,
            },
            KeyError::NulCharacter => KeyErrorView::NulCharacter,
            KeyError::NotAModifier { token } => KeyErrorView::NotAModifier { token: token@ },
            KeyError::EmptyHold => KeyErrorView::EmptyHold,
        }
    }
}

impl KeyErrorView {
    /// The sentence that tells a person what was wrong.
    pub open spec fn sentence(self) -> Seq<char> {
        match self {
            KeyErrorView::EmptySpec => "key spec is empty"@,
            KeyErrorView::UnexpectedToken { token, spec } => "unexpected non-modifier token `"@
                + token + "` before base key in `"@ + spec + "`"@,
            KeyErrorView::UnsupportedKey { name, resolved } => "unsupported key name `"@ + name
                + "` (resolved keysym name `"@ + resolved + "`)"@,
            KeyErrorView::NulCharacter => "cannot type NUL"@,
            KeyErrorView::NotAModifier { token } => "`"@ + token + "` is not a modifier"@,
            KeyErrorView::EmptyHold => "hold key list is empty"@,
        }
    }
}

impl KeyError {
    /// The sentence that tells a person what was wrong.
    pub fn message(&self) -> (r: String)
        ensures
            r@ == self@.sentence(),
    {
        let mut out = String::new();
        match self {
            KeyError::EmptySpec => {
                out.append("key spec is empty");
            },
            KeyError::UnexpectedToken { token, spec } => {
                out.append("unexpected non-modifier token `");
                out.append(token.as_str());
                out.append("` before base key in `");
                out.append(spec.as_str());
                out.append("`");
            },
            KeyError::UnsupportedKey { name, resolved } => {
                out.append("unsupported key name `");
                out.append(name.as_str());
                out.append("` (resolved keysym name `");
                out.append(resolved.as_str());
                out.append("`)");
            },
            KeyError::NulCharacter => {
                out.append("cannot type NUL");
            },
            KeyError::NotAModifier { token } => {
                out.append("`");
                out.append(token.as_str());
                out.append("` is not a modifier");
            },
            KeyError::EmptyHold => {
                out.append("hold key list is empty");
            },
        }
        out
    }
}

} // verus!
