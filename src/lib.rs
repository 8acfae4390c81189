//! Framing, decoding and failure policy for a terminal status line fed by a
//! stream of JSON block arrays.

mod block;
mod controller;
mod decode;
mod failure;
mod frame;
mod laws;

pub use block::{flatten, Block, BlockView, Blocks};
pub use failure::Failure;
pub use frame::{comma_trimmed, frame_of, last_frame, last_index_before, trailing_zeroes_trimmed, Framing};
pub use decode::{
    block_from_members, block_of, blocks_from_objects, blocks_of, decoded, json_objects, member_text,
    objects_view, read_chunk, Member, MemberView,
};
pub use controller::{
    action_is, event_of, fresh, health_of, next_state, surfaced, Action, Controller, ControllerView, Health,
    FAILURE_LIMIT, TICK_MILLIS,
};
pub use laws::{
    after_failures, comma_if, framable, is_array_literal, lemma_comma_frame_recovered, lemma_flatten_append,
    lemma_full_streak_aborts_once, lemma_last_frame_wins, lemma_padded_frame_recovered, lemma_padding_only_fails,
    lemma_short_streak_recovers, opens_once, zeroes,
};
