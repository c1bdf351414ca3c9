//! A connection to the state of a shell.
use std::sync::Arc;
use vstd::prelude::*;

use crate::clipboard::{Clipboard, Content, Kind};
use crate::event;
use crate::input_method::InputMethod;
use crate::layer::{with_registered, LayerRegistry, LayerSlot};
use crate::window::RedrawRequest;

verus! {

/// A connection to the state of a shell.
///
/// A widget uses a [`Shell`] to trigger changes in an application, like
/// publishing messages or invalidating the current layout.
#[derive(Debug)]
pub struct Shell<'a, Message> {
    pub messages: &'a mut Vec<Message>,
    pub event_status: event::Status,
    pub redraw_request: RedrawRequest,
    pub input_method: InputMethod,
    pub is_layout_invalid: bool,
    pub are_widgets_invalid: bool,
    pub clipboard: Clipboard,
    /// Whether the shell takes part in the layer protocol. The registry of the frame
    /// is handed to the methods that need it; shells that take part share it.
    pub takes_part: bool,
}

impl<'a, Message> Shell<'a, Message> {
    /// The message buffer is that of `before`, untouched.
    pub open spec fn same_borrows(&self, before: &Self) -> bool {
        self.messages == before.messages
    }

    /// The layers that enclose the widget that is being updated, outermost first, as
    /// this shell sees them.
    pub open spec fn parents(&self, registry: LayerRegistry) -> Seq<Arc<LayerSlot>> {
        if self.takes_part {
            registry.parents()
        } else {
            Seq::empty()
        }
    }

    /// Creates a new [`Shell`] with the provided buffer of messages.
    ///
    /// The shell does not take part in the layer protocol: calls such as
    /// [`register_layer`](Self::register_layer) do nothing. Layer-aware code uses
    /// [`with_layers`](Self::with_layers).
    pub fn new(messages: &'a mut Vec<Message>) -> (r: Self)
        ensures
            r.messages@ == old(messages)@,
            final(r.messages)@ == final(messages)@,
            r.event_status is Ignored,
            r.redraw_request is Wait,
            r.input_method is Disabled,
            !r.is_layout_invalid,
            !r.are_widgets_invalid,
            r.clipboard.reads@ == Seq::<Kind>::empty(),
            r.clipboard.write is None,
            !r.takes_part,
    {
        Shell::with_layers(messages, false)
    }

    /// Creates a new [`Shell`] with the provided buffer of messages, which takes part
    /// in the layer protocol if `takes_part` is set.
    ///
    /// Then layer-aware widgets can register compositor layers, push and pop the
    /// stack of enclosing layers, and inspect it.
    pub fn with_layers(messages: &'a mut Vec<Message>, takes_part: bool) -> (r: Self)
        ensures
            r.messages@ == old(messages)@,
            final(r.messages)@ == final(messages)@,
            r.event_status is Ignored,
            r.redraw_request is Wait,
            r.input_method is Disabled,
            !r.is_layout_invalid,
            !r.are_widgets_invalid,
            r.clipboard.reads@ == Seq::<Kind>::empty(),
            r.clipboard.write is None,
            r.takes_part == takes_part,
    {
        Shell {
            messages,
            event_status: event::Status::Ignored,
            redraw_request: RedrawRequest::Wait,
            input_method: InputMethod::Disabled,
            is_layout_invalid: false,
            are_widgets_invalid: false,
            clipboard: Clipboard::new(),
            takes_part,
        }
    }

    /// Returns `true` if the [`Shell`] contains no published messages.
    pub fn is_empty(&self) -> (r: bool)
        ensures
            r == (old(self.messages)@.len() == 0),
    {
        self.messages.is_empty()
    }

    /// Publishes the given message for an application to process it.
    pub fn publish(&mut self, message: Message)
        ensures
            final(self).messages@ == old(self).messages@.push(message),
            final(final(self).messages)@ == final(old(self).messages)@,
            *final(self) == (Shell { messages: final(self).messages, ..*old(self) }),
    {
        self.messages.push(message);
    }

    /// Marks the current event as captured. Prevents the event from bubbling up.
    ///
    /// A widget captures an event when no ancestor should handle it.
    pub fn capture_event(&mut self)
        ensures
            *final(self) == (Shell { event_status: event::Status::Captured, ..*old(self) }),
            final(self).same_borrows(old(self)),
    {
        self.event_status = event::Status::Captured;
    }

    /// Returns the current event status of the [`Shell`].
    pub fn event_status(&self) -> (r: event::Status)
        ensures
            r == self.event_status,
    {
        self.event_status
    }

    /// Returns whether the current event has been captured.
    pub fn is_event_captured(&self) -> (r: bool)
        ensures
            r == (self.event_status is Captured),
    {
        self.event_status == event::Status::Captured
    }

    /// Requests a new frame to be drawn as soon as possible.
    pub fn request_redraw(&mut self)
        ensures
            *final(self) == (Shell { redraw_request: RedrawRequest::NextFrame, ..*old(self) }),
            final(self).same_borrows(old(self)),
    {
        self.redraw_request = RedrawRequest::NextFrame;
    }

    /// Requests a new frame to be drawn at the given time, unless one is requested
    /// earlier already.
    pub fn request_redraw_at(&mut self, redraw_request: RedrawRequest)
        ensures
            *final(self) == (Shell {
                redraw_request: old(self).redraw_request.earliest(redraw_request),
                ..*old(self)
            }),
            final(self).same_borrows(old(self)),
    {
        self.redraw_request = self.redraw_request.min(redraw_request);
    }

    /// Returns when a redraw should happen.
    pub fn redraw_request(&self) -> (r: RedrawRequest)
        ensures
            r == self.redraw_request,
    {
        self.redraw_request
    }

    /// Replaces the redraw request of the [`Shell`], without conflict resolution.
    ///
    /// Useful to go back to a previous request. As it should rarely be needed, it
    /// is a static method.
    pub fn replace_redraw_request(shell: &mut Self, redraw_request: RedrawRequest)
        ensures
            *final(shell) == (Shell { redraw_request, ..*old(shell) }),
            final(shell).same_borrows(old(shell)),
    {
        shell.redraw_request = redraw_request;
    }

    /// Requests the runtime to read clipboard contents of the given kind.
    pub fn read_clipboard(&mut self, kind: Kind)
        ensures
            final(self).clipboard.reads@ == old(self).clipboard.reads@.push(kind),
            final(self).clipboard.write == old(self).clipboard.write,
            *final(self) == (Shell { clipboard: final(self).clipboard, ..*old(self) }),
            final(self).same_borrows(old(self)),
    {
        self.clipboard.reads.push(kind);
    }

    /// Requests the runtime to write the given contents to the clipboard.
    pub fn write_clipboard(&mut self, content: Content)
        ensures
            *final(self) == (Shell {
                clipboard: Clipboard { write: Some(content), ..old(self).clipboard },
                ..*old(self)
            }),
            final(self).same_borrows(old(self)),
    {
        self.clipboard.write = Some(content);
    }

    /// Returns the clipboard requests of the [`Shell`], mutably.
    pub fn clipboard_mut(&mut self) -> (r: &mut Clipboard)
        ensures
            *r == old(self).clipboard,
            *final(self) == (Shell { clipboard: *final(r), ..*old(self) }),
            final(self).same_borrows(old(self)),
    {
        &mut self.clipboard
    }

    /// Requests the given input method strategy, unless an enabled one is
    /// requested already.
    pub fn request_input_method(&mut self, ime: &InputMethod)
        ensures
            *final(self) == (Shell {
                input_method: old(self).input_method.merge_spec(*ime),
                ..*old(self)
            }),
            final(self).same_borrows(old(self)),
    {
        self.input_method.merge(ime);
    }

    /// Returns the current input method strategy.
    pub fn input_method(&self) -> (r: &InputMethod)
        ensures
            *r == self.input_method,
    {
        &self.input_method
    }

    /// Returns the current input method strategy, mutably.
    pub fn input_method_mut(&mut self) -> (r: &mut InputMethod)
        ensures
            *r == old(self).input_method,
            *final(self) == (Shell { input_method: *final(r), ..*old(self) }),
            final(self).same_borrows(old(self)),
    {
        &mut self.input_method
    }

    /// Returns whether the current layout is invalid.
    pub fn is_layout_invalid(&self) -> (r: bool)
        ensures
            r == self.is_layout_invalid,
    {
        self.is_layout_invalid
    }

    /// Invalidates the current application layout.
    pub fn invalidate_layout(&mut self)
        ensures
            *final(self) == (Shell { is_layout_invalid: true, ..*old(self) }),
            final(self).same_borrows(old(self)),
    {
        self.is_layout_invalid = true;
    }

    /// Calls the given function if the layout is invalid, and makes it valid in
    /// the process.
    pub fn revalidate_layout<F: FnOnce()>(&mut self, f: F)
        requires
            old(self).is_layout_invalid ==> call_requires(f, ()),
        ensures
            *final(self) == (Shell { is_layout_invalid: false, ..*old(self) }),
            final(self).same_borrows(old(self)),
            old(self).is_layout_invalid ==> call_ensures(f, (), ()),
    {
        if self.is_layout_invalid {
            self.is_layout_invalid = false;
            f();
        }
    }

    /// Returns whether the widgets of the current application have been
    /// invalidated.
    pub fn are_widgets_invalid(&self) -> (r: bool)
        ensures
            r == self.are_widgets_invalid,
    {
        self.are_widgets_invalid
    }

    /// Invalidates the current application widgets.
    pub fn invalidate_widgets(&mut self)
        ensures
            *final(self) == (Shell { are_widgets_invalid: true, ..*old(self) }),
            final(self).same_borrows(old(self)),
    {
        self.are_widgets_invalid = true;
    }

    /// Merges the current [`Shell`] with another one by applying the given
    /// function to the messages of the latter.
    ///
    /// Whether this shell takes part in the layer protocol does not change.
    pub fn merge<'b, B, F: Fn(B) -> Message>(&mut self, other: Shell<'b, B>, f: F)
        requires
            forall|i: int|
                0 <= i < old(other.messages)@.len() ==> call_requires(
                    f,
                    (#[trigger] old(other.messages)@[i],),
                ),
        ensures
            final(self).messages@.len() == old(self).messages@.len() + old(other.messages)@.len(),
            forall|i: int|
                0 <= i < old(self).messages@.len() ==> #[trigger] final(self).messages@[i]
                    == old(self).messages@[i],
            forall|i: int|
                old(self).messages@.len() <= i < final(self).messages@.len() ==> call_ensures(
                    f,
                    (old(other.messages)@[i - old(self).messages@.len()],),
                    #[trigger] final(self).messages@[i],
                ),
            final(final(self).messages)@ == final(old(self).messages)@,
            final(other.messages)@ == Seq::<B>::empty(),
            final(self).is_layout_invalid == (old(self).is_layout_invalid
                || other.is_layout_invalid),
            final(self).are_widgets_invalid == (old(self).are_widgets_invalid
                || other.are_widgets_invalid),
            final(self).redraw_request == old(self).redraw_request.earliest(other.redraw_request),
            final(self).event_status == old(self).event_status.merge_spec(other.event_status),
            final(self).input_method == old(self).input_method.merge_spec(other.input_method),
            final(self).clipboard.reads@ == old(self).clipboard.reads@ + other.clipboard.reads@,
            final(self).clipboard.write == Clipboard::merged_write(
                old(self).clipboard.write,
                other.clipboard.write,
            ),
            final(self).takes_part == old(self).takes_part,
    {
        let mut other = other;
        let ghost theirs = other.messages@;
        let ghost ours = self.messages@;
        let mut drained: Vec<B> = Vec::new();
        std::mem::swap(other.messages, &mut drained);
        for message in it: drained
            invariant
                it.seq() == theirs,
                forall|i: int|
                    0 <= i < theirs.len() ==> call_requires(f, (#[trigger] theirs[i],)),
                self.messages@.len() == ours.len() + it.index(),
                forall|i: int|
                    0 <= i < ours.len() ==> #[trigger] self.messages@[i] == ours[i],
                forall|i: int|
                    ours.len() <= i < self.messages@.len() ==> call_ensures(
                        f,
                        (theirs[i - ours.len()],),
                        #[trigger] self.messages@[i],
                    ),
                final(self.messages)@ == final(old(self).messages)@,
                *self == (Shell { messages: self.messages, ..*old(self) }),
        {
            self.messages.push(f(message));
        }

        self.is_layout_invalid = self.is_layout_invalid || other.is_layout_invalid;
        self.are_widgets_invalid = self.are_widgets_invalid || other.are_widgets_invalid;
        self.redraw_request = self.redraw_request.min(other.redraw_request);
        self.event_status = self.event_status.merge(other.event_status);
        self.input_method.merge(&other.input_method);
        self.clipboard.merge(&mut other.clipboard);
    }

    /// Registers `slot` with this frame's [`LayerRegistry`], so that it is
    /// composited once the widgets have drawn themselves. A slot whose id is
    /// registered already is not added again.
    ///
    /// Does nothing if the shell takes no part in the layer protocol.
    pub fn register_layer(&mut self, registry: &mut LayerRegistry, slot: Arc<LayerSlot>)
        requires
            old(registry).wf(),
        ensures
            *final(self) == *old(self),
            final(self).same_borrows(old(self)),
            final(registry).wf(),
            final(registry).slots() == (if old(self).takes_part {
                with_registered(old(registry).slots(), slot)
            } else {
                old(registry).slots()
            }),
            final(registry).parents() == old(registry).parents(),
    {
        if self.takes_part {
            registry.register(slot);
        }
    }

    /// Pushes `slot` onto the stack of enclosing layers. Must be paired with
    /// [`pop_layer`](Self::pop_layer).
    ///
    /// Does nothing if the shell takes no part in the layer protocol.
    pub fn push_layer(&mut self, registry: &mut LayerRegistry, slot: &Arc<LayerSlot>)
        ensures
            *final(self) == *old(self),
            final(self).same_borrows(old(self)),
            old(registry).wf() ==> final(registry).wf(),
            final(registry).slots() == old(registry).slots(),
            final(registry).parents() == (if old(self).takes_part {
                old(registry).parents().push(*slot)
            } else {
                old(registry).parents()
            }),
    {
        if self.takes_part {
            registry.enter(slot.clone());
        }
    }

    /// Pops the innermost slot from the stack of enclosing layers. Must be paired
    /// with [`push_layer`](Self::push_layer).
    ///
    /// Does nothing if the stack is empty or if the shell takes no part in the layer
    /// protocol.
    pub fn pop_layer(&mut self, registry: &mut LayerRegistry)
        ensures
            *final(self) == *old(self),
            final(self).same_borrows(old(self)),
            old(registry).wf() ==> final(registry).wf(),
            final(registry).slots() == old(registry).slots(),
            final(registry).parents() == (if old(self).takes_part
                && old(registry).parents().len() > 0 {
                old(registry).parents().drop_last()
            } else {
                old(registry).parents()
            }),
    {
        if self.takes_part {
            registry.leave();
        }
    }

    /// Returns a handle to the innermost enclosing layer, or [`None`] at top level
    /// or if the shell takes no part in the layer protocol.
    pub fn current_layer(&self, registry: &LayerRegistry) -> (r: Option<Arc<LayerSlot>>)
        ensures
            r == (if self.parents(*registry).len() == 0 {
                None
            } else {
                Some(self.parents(*registry).last())
            }),
    {
        if self.takes_part {
            registry.innermost()
        } else {
            None
        }
    }

    /// Returns handles to the enclosing layers, from the immediate parent to the
    /// outermost layer. Empty if the shell takes no part in the layer protocol.
    ///
    /// A walk over them lets a widget mark every ancestor dirty when its own cache
    /// goes stale.
    pub fn layer_stack_ancestors(&self, registry: &LayerRegistry) -> (r: Vec<Arc<LayerSlot>>)
        ensures
            r@ == self.parents(*registry).reverse(),
    {
        if self.takes_part {
            registry.ancestors()
        } else {
            Vec::new()
        }
    }

    /// Returns whether this shell takes part in the layer protocol.
    ///
    /// Used to let a child shell take part across a message-mapping boundary, so that
    /// a layer-aware widget behind it can still register and push layers. Parent and
    /// child then work on the same registry.
    pub fn layers_ref(&self) -> (r: bool)
        ensures
            r == self.takes_part,
    {
        self.takes_part
    }
}

/// A child shell that takes part like its parent shares the registry with it: both
/// see the same enclosing layers, whichever of the two has pushed them.
pub proof fn law_a_child_shares_the_registry<'a, 'b, A, B>(
    parent: Shell<'a, A>,
    child: Shell<'b, B>,
    registry: LayerRegistry,
)
    requires
        child.takes_part == parent.takes_part,
    ensures
        child.parents(registry) == parent.parents(registry),
{
}

/// Merging a shell that has asked for nothing changes nothing.
pub proof fn law_a_fresh_shell_adds_nothing(
    event_status: event::Status,
    redraw_request: RedrawRequest,
    input_method: InputMethod,
    clipboard: Clipboard,
)
    ensures
        event_status.merge_spec(event::Status::Ignored) == event_status,
        redraw_request.earliest(RedrawRequest::Wait) == redraw_request,
        input_method.merge_spec(InputMethod::Disabled) == input_method,
        Clipboard::merged_write(clipboard.write, None) == clipboard.write,
        clipboard.reads@ + Seq::<Kind>::empty() == clipboard.reads@,
{
    assert(clipboard.reads@ + Seq::<Kind>::empty() =~= clipboard.reads@);
}

/// A shell that takes part sees the layers that enclose the widget, and one that takes
/// no part sees none.
pub proof fn law_only_those_who_take_part_see_layers<'a, A>(
    shell: Shell<'a, A>,
    registry: LayerRegistry,
)
    ensures
        shell.takes_part ==> shell.parents(registry) == registry.parents(),
        !shell.takes_part ==> shell.parents(registry).len() == 0,
{
}

} // verus!
