//! Message content and its normalisation into a printable string.
use vstd::prelude::*;
use vstd::string::StringExecFns;

verus! {

/// The content of a room message, as far as this client represents it.
pub enum Content {
    /// Plain text.
    Text { body: String },
    /// An image with its description and, when known, where it is stored.
    Image { body: String, url: Option<String> },
    /// Any other kind (video, audio, file, custom): never displayed.
    Other,
}

/// What the normaliser makes of a content value.
pub open spec fn normalized(c: Content) -> Seq<char> {
    match c {
        Content::Text { body } => body@,
        Content::Image { body, url: Some(u) } => body@ + seq!['('] + u@ + seq![')'],
        Content::Image { body, url: None } => Seq::empty(),
        Content::Other => Seq::empty(),
    }
}

/// Whether a content value is of a kind that this client shows at all.
pub open spec fn represented(c: Content) -> bool {
    !(c is Other)
}

impl Content {
    /// Whether this content is of a kind that reaches the display.
    pub fn is_represented(&self) -> (r: bool)
        ensures
            r == represented(*self),
    {
        match self {
            Content::Other => false,
            _ => true,
        }
    }
}

/// Turns a content value into the text shown for it: a text's body as it
/// is, an image's body followed by its location in parentheses, and the
/// empty string for an image without location or any other kind.
pub fn normalize(c: &Content) -> (r: String)
    ensures
        r@ == normalized(*c),
{
    match c {
        Content::Text { body } => body.clone(),
        Content::Image { body, url: Some(u) } => {
            let mut s = body.clone();
            proof {
                reveal_strlit("(");
                reveal_strlit(")");
            }
            s.append("(");
            s.append(u.as_str());
            s.append(")");
            s
        },
        Content::Image { body: _, url: None } => String::new(),
        Content::Other => String::new(),
    }
}

} // verus!
