use std::cell::Cell;
use std::sync::Arc;

use layer_compositor::clipboard::{Content, Kind};
use layer_compositor::event::Status;
use layer_compositor::geometry::{Rectangle, Size};
use layer_compositor::input_method::{InputMethod, Preedit, Purpose};
use layer_compositor::layer::{LayerRegistry, LayerSlot, SlotStates};
use layer_compositor::shell::Shell;
use layer_compositor::texture_cache::{CacheFlags, TextureCache};
use layer_compositor::window::{Instant, RedrawRequest};

fn enabled(purpose: Purpose) -> InputMethod {
    InputMethod::Enabled {
        cursor: Rectangle::with_size(Size::zero()),
        purpose,
        preedit: Some(Preedit { content: "abc".to_string(), selection: Some((0, 2)), text_size: None }),
    }
}

fn purpose_of(input_method: &InputMethod) -> Option<Purpose> {
    match input_method {
        InputMethod::Disabled => None,
        InputMethod::Enabled { purpose, .. } => Some(*purpose),
    }
}

fn slots(n: usize) -> Vec<Arc<LayerSlot>> {
    let mut flags = CacheFlags::new();
    let mut states = SlotStates::new();
    (0..n).map(|_| LayerSlot::new(TextureCache::new(&mut flags), &mut states)).collect()
}

#[test]
fn a_new_shell_asks_for_nothing() {
    let mut messages: Vec<u8> = Vec::new();
    let shell: Shell<'_, u8> = Shell::new(&mut messages);
    assert!(shell.is_empty());
    assert_eq!(shell.event_status(), Status::Ignored);
    assert!(!shell.is_event_captured());
    assert_eq!(shell.redraw_request(), RedrawRequest::Wait);
    assert!(purpose_of(shell.input_method()).is_none());
    assert!(!shell.is_layout_invalid());
    assert!(!shell.are_widgets_invalid());
    assert!(shell.clipboard.reads.is_empty());
    assert!(shell.clipboard.write.is_none());
    assert!(!shell.layers_ref());
}

#[test]
fn messages_are_published_in_order() {
    let mut messages = vec![1];
    let mut shell: Shell<'_, i32> = Shell::new(&mut messages);
    assert!(!shell.is_empty());
    shell.publish(2);
    shell.publish(3);
    assert_eq!(messages, vec![1, 2, 3]);
}

#[test]
fn captured_events_stay_captured() {
    let mut messages: Vec<u8> = Vec::new();
    let mut shell: Shell<'_, u8> = Shell::new(&mut messages);
    shell.capture_event();
    assert!(shell.is_event_captured());
    assert_eq!(Status::Ignored.merge(Status::Captured), Status::Captured);
    assert_eq!(Status::Captured.merge(Status::Ignored), Status::Captured);
    assert_eq!(Status::Ignored.merge(Status::Ignored), Status::Ignored);
}

#[test]
fn the_most_urgent_redraw_request_wins() {
    let early = RedrawRequest::At(Instant { nanos: 5 });
    let late = RedrawRequest::from(Instant { nanos: 9 });
    assert_eq!(early.min(late), early);
    assert_eq!(late.min(early), early);
    assert_eq!(RedrawRequest::Wait.min(late), late);
    assert_eq!(late.min(RedrawRequest::Wait), late);
    assert_eq!(RedrawRequest::NextFrame.min(early), RedrawRequest::NextFrame);
    assert_eq!(early.min(RedrawRequest::NextFrame), RedrawRequest::NextFrame);

    let mut messages: Vec<u8> = Vec::new();
    let mut shell: Shell<'_, u8> = Shell::new(&mut messages);
    shell.request_redraw_at(late);
    shell.request_redraw_at(early);
    shell.request_redraw_at(late);
    assert_eq!(shell.redraw_request(), early);
    shell.request_redraw();
    assert_eq!(shell.redraw_request(), RedrawRequest::NextFrame);
    Shell::replace_redraw_request(&mut shell, RedrawRequest::Wait);
    assert_eq!(shell.redraw_request(), RedrawRequest::Wait);
}

#[test]
fn the_first_enabled_input_method_is_kept() {
    let mut messages: Vec<u8> = Vec::new();
    let mut shell: Shell<'_, u8> = Shell::new(&mut messages);
    shell.request_input_method(&InputMethod::Disabled);
    assert!(purpose_of(shell.input_method()).is_none());
    shell.request_input_method(&enabled(Purpose::Secure));
    shell.request_input_method(&enabled(Purpose::Terminal));
    assert_eq!(purpose_of(shell.input_method()), Some(Purpose::Secure));
    *shell.input_method_mut() = InputMethod::Disabled;
    shell.request_input_method(&enabled(Purpose::Terminal));
    assert_eq!(purpose_of(shell.input_method()), Some(Purpose::Terminal));
}

#[test]
fn clipboard_requests_are_collected() {
    let mut messages: Vec<u8> = Vec::new();
    let mut shell: Shell<'_, u8> = Shell::new(&mut messages);
    shell.read_clipboard(Kind::Text);
    shell.read_clipboard(Kind::Image);
    shell.write_clipboard(Content::Text("a".to_string()));
    shell.write_clipboard(Content::Html("b".to_string()));
    assert_eq!(shell.clipboard.reads, vec![Kind::Text, Kind::Image]);
    assert_eq!(shell.clipboard.write, Some(Content::Html("b".to_string())));
    shell.clipboard_mut().reads.clear();
    assert!(shell.clipboard.reads.is_empty());
}

#[test]
fn an_invalid_layout_is_revalidated_once() {
    let mut messages: Vec<u8> = Vec::new();
    let mut shell: Shell<'_, u8> = Shell::new(&mut messages);
    let calls = Cell::new(0);
    shell.revalidate_layout(|| calls.set(calls.get() + 1));
    assert_eq!(calls.get(), 0);
    shell.invalidate_layout();
    assert!(shell.is_layout_invalid());
    shell.revalidate_layout(|| calls.set(calls.get() + 1));
    shell.revalidate_layout(|| calls.set(calls.get() + 1));
    assert_eq!(calls.get(), 1);
    assert!(!shell.is_layout_invalid());
    shell.invalidate_widgets();
    assert!(shell.are_widgets_invalid());
}

#[test]
fn merging_combines_two_shells() {
    let mut messages = vec!["first".to_string()];
    let mut other_messages = vec![1, 2];
    let mut shell: Shell<'_, String> = Shell::new(&mut messages);
    let mut other: Shell<'_, i32> = Shell::new(&mut other_messages);
    shell.read_clipboard(Kind::Files);
    shell.write_clipboard(Content::Text("ours".to_string()));
    shell.request_redraw_at(RedrawRequest::At(Instant { nanos: 7 }));
    other.publish(3);
    other.capture_event();
    other.invalidate_widgets();
    other.read_clipboard(Kind::Html);
    other.write_clipboard(Content::Text("theirs".to_string()));
    other.request_redraw_at(RedrawRequest::At(Instant { nanos: 3 }));
    other.request_input_method(&enabled(Purpose::Normal));
    shell.merge(other, |n| format!("number {}", n));
    assert!(shell.is_event_captured());
    assert!(shell.are_widgets_invalid());
    assert!(!shell.is_layout_invalid());
    assert_eq!(shell.redraw_request(), RedrawRequest::At(Instant { nanos: 3 }));
    assert_eq!(purpose_of(shell.input_method()), Some(Purpose::Normal));
    assert_eq!(shell.clipboard.reads, vec![Kind::Files, Kind::Html]);
    assert_eq!(shell.clipboard.write, Some(Content::Text("theirs".to_string())));
    assert_eq!(messages, vec!["first", "number 1", "number 2", "number 3"]);
    assert!(other_messages.is_empty());
}

#[test]
fn merging_maps_the_messages_of_the_other_shell_only() {
    let mut messages: Vec<u8> = vec![100];
    let mut other_messages: Vec<u8> = vec![2, 3];
    Shell::new(&mut messages).merge(Shell::new(&mut other_messages), |x| x * 10);
    assert_eq!(messages, vec![100, 20, 30]);
    assert!(other_messages.is_empty());
}

#[test]
fn merging_keeps_what_the_other_shell_does_not_ask_for() {
    let mut messages: Vec<u8> = Vec::new();
    let mut other_messages: Vec<u8> = Vec::new();
    let mut shell: Shell<'_, u8> = Shell::new(&mut messages);
    shell.capture_event();
    shell.invalidate_layout();
    shell.write_clipboard(Content::Text("ours".to_string()));
    shell.request_redraw();
    shell.request_input_method(&enabled(Purpose::Secure));
    let other: Shell<'_, u8> = Shell::new(&mut other_messages);
    shell.merge(other, |n| n);
    assert!(shell.is_event_captured());
    assert!(shell.is_layout_invalid());
    assert_eq!(shell.redraw_request(), RedrawRequest::NextFrame);
    assert_eq!(shell.clipboard.write, Some(Content::Text("ours".to_string())));
    assert_eq!(purpose_of(shell.input_method()), Some(Purpose::Secure));
}

#[test]
fn merging_a_fresh_shell_changes_nothing() {
    for takes_part in [false, true] {
        for other_takes_part in [false, true] {
            let mut messages = vec![7];
            let mut other_messages: Vec<u8> = Vec::new();
            let calls = Cell::new(0);
            {
                let mut shell = Shell::with_layers(&mut messages, takes_part);
                shell.capture_event();
                shell.invalidate_widgets();
                shell.read_clipboard(Kind::Text);
                shell.request_redraw_at(RedrawRequest::At(Instant { nanos: 4 }));
                shell.request_input_method(&enabled(Purpose::Secure));
                let other = Shell::with_layers(&mut other_messages, other_takes_part);
                shell.merge(other, |n| {
                    calls.set(calls.get() + 1);
                    n
                });
                assert!(shell.is_event_captured());
                assert!(!shell.is_layout_invalid());
                assert!(shell.are_widgets_invalid());
                assert_eq!(shell.clipboard.reads, vec![Kind::Text]);
                assert!(shell.clipboard.write.is_none());
                assert_eq!(shell.redraw_request(), RedrawRequest::At(Instant { nanos: 4 }));
                assert_eq!(purpose_of(shell.input_method()), Some(Purpose::Secure));
                assert_eq!(shell.layers_ref(), takes_part);
            }
            assert_eq!(calls.get(), 0);
            assert_eq!(messages, vec![7]);
        }
    }
}

#[test]
fn layers_are_registered_once_in_order() {
    let slots = slots(3);
    let mut registry = LayerRegistry::new();
    let mut messages: Vec<u8> = Vec::new();
    let mut shell = Shell::with_layers(&mut messages, true);
    shell.register_layer(&mut registry, slots[1].clone());
    shell.register_layer(&mut registry, slots[0].clone());
    shell.register_layer(&mut registry, slots[1].clone());
    shell.register_layer(&mut registry, slots[2].clone());
    shell.register_layer(&mut registry, slots[0].clone());
    let ids: Vec<u64> = registry.registered().iter().map(|s| s.id().as_u64()).collect();
    assert_eq!(ids, vec![2, 1, 3]);
    assert!(!registry.is_empty());
    registry.clear();
    assert!(registry.is_empty());
}

#[test]
fn enclosing_layers_are_pushed_and_popped() {
    let slots = slots(2);
    let mut registry = LayerRegistry::new();
    let mut messages: Vec<u8> = Vec::new();
    let mut shell = Shell::with_layers(&mut messages, true);
    assert!(shell.current_layer(&registry).is_none());
    assert!(shell.layer_stack_ancestors(&registry).is_empty());
    shell.push_layer(&mut registry, &slots[0]);
    shell.push_layer(&mut registry, &slots[1]);
    assert_eq!(shell.current_layer(&registry).unwrap().id(), slots[1].id());
    let ancestors: Vec<u64> =
        shell.layer_stack_ancestors(&registry).iter().map(|s| s.id().as_u64()).collect();
    assert_eq!(ancestors, vec![2, 1]);
    shell.pop_layer(&mut registry);
    assert_eq!(shell.current_layer(&registry).unwrap().id(), slots[0].id());
    shell.pop_layer(&mut registry);
    shell.pop_layer(&mut registry);
    assert!(shell.current_layer(&registry).is_none());
    assert!(registry.is_empty());
}

#[test]
fn a_shell_that_takes_no_part_ignores_layers() {
    let slots = slots(2);
    let mut registry = LayerRegistry::new();
    let mut messages: Vec<u8> = Vec::new();
    let mut other_messages: Vec<u8> = Vec::new();
    let mut other = Shell::with_layers(&mut other_messages, true);
    other.push_layer(&mut registry, &slots[1]);
    let mut shell: Shell<'_, u8> = Shell::new(&mut messages);
    shell.register_layer(&mut registry, slots[0].clone());
    shell.push_layer(&mut registry, &slots[0]);
    assert!(shell.current_layer(&registry).is_none());
    assert!(shell.layer_stack_ancestors(&registry).is_empty());
    shell.pop_layer(&mut registry);
    assert!(!shell.layers_ref());
    assert!(registry.registered().is_empty());
    assert_eq!(other.current_layer(&registry).unwrap().id(), slots[1].id());
}

#[test]
fn parent_and_child_share_the_registry() {
    let slots = slots(3);
    let mut registry = LayerRegistry::new();
    let mut messages: Vec<String> = Vec::new();
    let mut child_messages: Vec<i32> = Vec::new();
    let mut dropped_messages: Vec<i32> = Vec::new();
    {
        let mut shell = Shell::with_layers(&mut messages, true);
        shell.register_layer(&mut registry, slots[0].clone());
        shell.push_layer(&mut registry, &slots[0]);
        let mut child = Shell::with_layers(&mut child_messages, shell.layers_ref());
        assert_eq!(shell.current_layer(&registry).unwrap().id(), slots[0].id());
        assert_eq!(child.current_layer(&registry).unwrap().id(), slots[0].id());
        child.push_layer(&mut registry, &slots[1]);
        assert_eq!(shell.current_layer(&registry).unwrap().id(), slots[1].id());
        child.pop_layer(&mut registry);
        child.register_layer(&mut registry, slots[1].clone());
        child.publish(4);
        shell.merge(child, |n| n.to_string());
        assert!(shell.layers_ref());
        assert_eq!(shell.current_layer(&registry).unwrap().id(), slots[0].id());

        let unmerged = Shell::with_layers(&mut dropped_messages, shell.layers_ref());
        drop(unmerged);
        assert_eq!(shell.current_layer(&registry).unwrap().id(), slots[0].id());
        shell.pop_layer(&mut registry);
        shell.register_layer(&mut registry, slots[2].clone());
    }
    assert_eq!(messages, vec!["4"]);
    assert_eq!(registry.registered().len(), 3);
}
