//! Requests to read and write the clipboard.
use vstd::prelude::*;

verus! {

/// A kind of clipboard contents.
#[derive(Debug, Clone, Copy, PartialEq, Eq, Structural)]
pub enum Kind {
    Text,
    Html,
    Files,
    Image,
}

/// Contents for the clipboard.
#[derive(Debug, PartialEq, Eq)]
pub enum Content {
    Text(String),
    Html(String),
    Files(Vec<String>),
    /// Pixels in RGBA order.
    Image { width: u32, height: u32, pixels: Vec<u8> },
}

/// A set of clipboard requests.
#[derive(Debug)]
pub struct Clipboard {
    /// The reads that the runtime must fulfill, in the order they were requested.
    pub reads: Vec<Kind>,
    /// The contents that the runtime must write, if any.
    pub write: Option<Content>,
}

impl Clipboard {
    /// The write that is left when `later` is requested after `earlier`.
    pub open spec fn merged_write(earlier: Option<Content>, later: Option<Content>) -> Option<
        Content,
    > {
        if later is Some {
            later
        } else {
            earlier
        }
    }

    /// Creates an empty set of requests.
    pub fn new() -> (r: Clipboard)
        ensures
            r.reads@ == Seq::<Kind>::empty(),
            r.write is None,
    {
        Clipboard { reads: Vec::new(), write: None }
    }

    /// Moves the requests of `other` behind these. A write in `other` replaces
    /// one that was requested here.
    pub fn merge(&mut self, other: &mut Clipboard)
        ensures
            final(self).reads@ == old(self).reads@ + old(other).reads@,
            final(self).write == Clipboard::merged_write(old(self).write, old(other).write),
            final(other).reads@ == Seq::<Kind>::empty(),
            final(other).write is None,
    {
        self.reads.append(&mut other.reads);
        let later = other.write.take();
        if later.is_some() {
            self.write = later;
        }
    }
}

/// The contents that were asked for last are written. Asking for none takes nothing
/// back.
pub proof fn law_the_last_write_wins(
    earlier: Option<Content>,
    later: Option<Content>,
    content: Content,
)
    ensures
        Clipboard::merged_write(earlier, Some(content)) == Some(content),
        Clipboard::merged_write(earlier, None) == earlier,
        Clipboard::merged_write(None, later) == later,
{
}

} // verus!
