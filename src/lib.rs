//! An encrypted chat relay: a registry of live connections with fan-out,
//! authenticated framing of chat payloads, a typing-indicator tracker and the
//! decisions of a client session.
mod cipher;
mod registry;
mod session;
mod typing;
mod user;

pub use cipher::{
    chacha20_poly1305_sealed, le_bytes, lemma_nonce_unique, lemma_open_seal_round_trip, nonce_for, pow256,
    sealed_frame, CipherCodec, CipherError, KEY_LEN, MAX_PLAINTEXT_LEN, NONCE_LEN, TAG_LEN,
};
pub use registry::{
    apply_op, apply_ops, has_id, ids_unique, is_relayed, is_snapshot_of, last_registered,
    lemma_broadcast_excludes_sender, lemma_registry_follows_last_call, RegistryOp,
    lemma_register_unregister_commute, ConnectionIds, ConnectionRegistry, FrameKind,
};
pub use session::{
    blank, chat_line, chat_text, is_blank, is_space, joined, text_frame_line, text_frame_text, typing_line,
    typing_text, ClientSession, Envelope, Received, TYPING_WINDOW_MS,
};
pub use typing::{fresh_users, is_fresh, lemma_typing_expiry, lists_exactly, TypingTracker};
pub use user::User;
