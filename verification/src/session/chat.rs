//! Chat: what a client writes to its room, and the commands that it gives
//! with a `/` in front.

use vstd::prelude::*;
use vstd::string::{StringExecFns, StringSliceAdditionalSpecFns};
use vstd::utf8::{decode_utf8, encode_utf8, valid_utf8};
use crate::chunk::chunk::{delivered, Delivery};
use crate::id::SessionHandle;
use crate::limits::MESSAGE_LEN_MAX;
use crate::packet_client::FrameError;
use crate::packet_server::{kick_frame, message_frame, prepare_packet_message, MessageType};
use crate::room::{broadcast_frames, RoomInstance, RoomSessionData};
use crate::session::{ProtocolError, SessionInstance};
use crate::text::{
    chars_of, find_space, is_text, space_from, string_of, trim, trimmed, utf8_to_string, word_at,
    word_from,
};

verus! {

/// A command that a client gives in the chat.
pub enum ChatCommand {
    Help,
    Leave,
    /// With the password given, if any.
    Admin(Option<String>),
    ProcessPreviewSystem,
    Unknown,
}

/// What a `ChatCommand` holds.
pub enum ChatCommandView {
    Help,
    Leave,
    Admin(Option<Seq<char>>),
    ProcessPreviewSystem,
    Unknown,
}

/// What is left to do after a frame of chat, outside the session.
#[derive(Clone, Copy, PartialEq, Eq, Structural, Debug)]
pub enum ChatOutcome {
    Nothing,
    /// The preview tiles of the room are to be rendered anew.
    RegeneratePreviews,
}

impl View for ChatCommand {
    type V = ChatCommandView;

    open spec fn view(&self) -> ChatCommandView {
        match *self {
            ChatCommand::Help => ChatCommandView::Help,
            ChatCommand::Leave => ChatCommandView::Leave,
            ChatCommand::Admin(password) => ChatCommandView::Admin(
                match password {
                    Some(p) => Some(p@),
                    None => None,
                },
            ),
            ChatCommand::ProcessPreviewSystem => ChatCommandView::ProcessPreviewSystem,
            ChatCommand::Unknown => ChatCommandView::Unknown,
        }
    }
}

/// The command that the text `msg` gives: its first word decides, and the
/// word behind the first space, if there is a space, is the password of
/// `admin`.
pub open spec fn chat_command_of(msg: Seq<char>) -> ChatCommandView {
    let word = word_at(msg, 0);
    if word == "help"@ || word == "?"@ {
        ChatCommandView::Help
    } else if word == "leave"@ {
        ChatCommandView::Leave
    } else if word == "admin"@ {
        if space_from(msg, 0) < msg.len() {
            ChatCommandView::Admin(Some(word_at(msg, space_from(msg, 0) + 1)))
        } else {
            ChatCommandView::Admin(None)
        }
    } else if word == "process_preview_system"@ {
        ChatCommandView::ProcessPreviewSystem
    } else {
        ChatCommandView::Unknown
    }
}

/// The command echoed back to the client; a password is left out.
pub open spec fn command_echo(msg: Seq<char>) -> Seq<char> {
    "[color=green]/"@ + (if word_at(msg, 0) == "admin"@ {
        "&lt;redacted&gt;"@
    } else {
        msg
    }) + "[/color]"@
}

/// The help that a client is given, each line behind six tabs.
pub open spec fn help_text() -> Seq<char> {
    "\n\t\t\t\t\t\tUser commands:\n\t\t\t\t\t\t[color=blue]help[/color]: [i]Show this message[/i]\n\t\t\t\t\t\t[color=blue]leave[/color]: [i]Kick yourself[/i]\n\t\t\t\t\t\tAdmin commands:\n\t\t\t\t\t\t[color=red]admin[/color]: [i]Log-in as admin[/i]\n\t\t\t\t\t\t[color=red]process_preview_system[/color]: [i]Force-refresh preview system[/i]\n\t\t\t\t\t\t"@
}

/// The line that the room is shown when `nick_name` writes `text`.
pub open spec fn chat_line(nick_name: Seq<char>, text: Seq<char>) -> Seq<char> {
    nick_name + ": "@ + trimmed(text)
}

/// The answer to a command, as type and text, where there is one.
pub open spec fn command_answer(
    command: ChatCommandView,
    admin_mode: bool,
    admin_password: Option<Seq<char>>,
) -> Option<(MessageType, Seq<char>)> {
    match command {
        ChatCommandView::Help => Some((MessageType::Html, help_text())),
        ChatCommandView::Leave => None,
        ChatCommandView::Admin(None) => Some((MessageType::PlainText, "Usage: admin <password>"@)),
        ChatCommandView::Admin(Some(given)) => match admin_password {
            None => Some(
                (MessageType::Html, "[color=red]admin_password in settings.json is not set[/color]"@),
            ),
            Some(wanted) => if wanted == given {
                Some((MessageType::Html, "[color=blue]Authenticated[/color]"@))
            } else {
                Some((MessageType::Html, "[color=red]Invalid password[/color]"@))
            },
        },
        ChatCommandView::ProcessPreviewSystem => if admin_mode {
            Some((MessageType::PlainText, "Preview regeneration started"@))
        } else {
            Some((MessageType::Html, "[error]Unauthenticated[/error]"@))
        },
        ChatCommandView::Unknown => Some((MessageType::Html, "[color=red]Unknown command[/color]"@)),
    }
}

/// Whether a command makes the session an administrator: `admin` with the
/// password that is set.
pub open spec fn command_authenticates(command: ChatCommandView, admin_password: Option<Seq<char>>) -> bool {
    command matches ChatCommandView::Admin(Some(given)) && admin_password == Some(given)
}

/// The command that the text `msg` gives.
pub fn parse_chat_command(msg: &[char]) -> (command: ChatCommand)
    ensures
        command@ == chat_command_of(msg@),
{
    let word = word_from(msg, 0);
    if is_text(&word, "help") || is_text(&word, "?") {
        ChatCommand::Help
    } else if is_text(&word, "leave") {
        ChatCommand::Leave
    } else if is_text(&word, "admin") {
        let space = find_space(msg, 0);
        if space < msg.len() {
            ChatCommand::Admin(Some(word_from(msg, space + 1)))
        } else {
            ChatCommand::Admin(None)
        }
    } else if is_text(&word, "process_preview_system") {
        ChatCommand::ProcessPreviewSystem
    } else {
        ChatCommand::Unknown
    }
}

impl SessionInstance {
    /// Sends the client a line of plain text.
    pub fn send_reply(&self, session_handle: &SessionHandle, text: String, outbox: &mut Vec<Delivery>)
        ensures
            delivered(final(outbox)@) == delivered(old(outbox)@).push(
                (*session_handle, message_frame(MessageType::PlainText, encode_utf8(text@))),
            ),
    {
        let packet = prepare_packet_message(MessageType::PlainText, text.as_str());
        let ghost frame = packet@;
        let ghost had = delivered(outbox@);
        outbox.push(Delivery { to: *session_handle, packet });
        assert(delivered(outbox@) =~= had.push((*session_handle, frame)));
    }

    /// Sends the client a line of text with markup.
    pub fn send_reply_stylized(&self, session_handle: &SessionHandle, text: String, outbox: &mut Vec<Delivery>)
        ensures
            delivered(final(outbox)@) == delivered(old(outbox)@).push(
                (*session_handle, message_frame(MessageType::Html, encode_utf8(text@))),
            ),
    {
        let packet = prepare_packet_message(MessageType::Html, text.as_str());
        let ghost frame = packet@;
        let ghost had = delivered(outbox@);
        outbox.push(Delivery { to: *session_handle, packet });
        assert(delivered(outbox@) =~= had.push((*session_handle, frame)));
    }

    /// Tells the client that only an administrator may do what it asked
    /// for.
    pub fn send_unauthenticated(&self, session_handle: &SessionHandle, outbox: &mut Vec<Delivery>)
        ensures
            delivered(final(outbox)@) == delivered(old(outbox)@).push(
                (
                    *session_handle,
                    message_frame(MessageType::Html, encode_utf8("[error]Unauthenticated[/error]"@)),
                ),
            ),
    {
        self.send_reply_stylized(
            session_handle,
            String::from_str("[error]Unauthenticated[/error]"),
            outbox,
        );
    }

    /// Shows every session of `room` what the client wrote, behind its
    /// name.
    pub fn handle_chat_message(&self, room: &RoomInstance, msg: &str, outbox: &mut Vec<Delivery>)
        ensures
            delivered(final(outbox)@) == delivered(old(outbox)@) + broadcast_frames(
                room.sessions@,
                message_frame(
                    MessageType::PlainText,
                    encode_utf8(chat_line(self.state.nick_name@, msg@)),
                ),
                None,
            ),
    {
        let inner = trim(msg);
        let mut line = self.state.nick_name.clone();
        line.append(": ");
        line.append(inner.as_str());
        let packet = prepare_packet_message(MessageType::PlainText, line.as_str());
        room.broadcast(&packet, None, outbox);
    }

    /// Obeys a command of the chat: the command is echoed to the client,
    /// without a password; then `help` is answered with the help, `leave`
    /// disconnects the client, `admin` with the password that is set makes
    /// the session an administrator, `process_preview_system` asks for the
    /// preview tiles to be rendered anew where the session is an
    /// administrator, and every other word is answered as unknown.
    pub fn handle_chat_command(
        &mut self,
        session_handle: &SessionHandle,
        msg: &[char],
        admin_password: Option<&str>,
        outbox: &mut Vec<Delivery>,
    ) -> (outcome: ChatOutcome)
        ensures
            outcome == if chat_command_of(msg@) is ProcessPreviewSystem && old(self).admin_mode {
                ChatOutcome::RegeneratePreviews
            } else {
                ChatOutcome::Nothing
            },
            final(self).admin_mode == (old(self).admin_mode || command_authenticates(
                chat_command_of(msg@),
                password_view(admin_password),
            )),
            final(self).kicked == (old(self).kicked || chat_command_of(msg@) is Leave),
            delivered(final(outbox)@) == delivered(old(outbox)@).push(
                (*session_handle, message_frame(MessageType::Html, encode_utf8(command_echo(msg@)))),
            ) + (match command_answer(
                chat_command_of(msg@),
                old(self).admin_mode,
                password_view(admin_password),
            ) {
                Some((kind, text)) => seq![(*session_handle, message_frame(kind, encode_utf8(text)))],
                None => if old(self).kicked {
                    Seq::empty()
                } else {
                    seq![(*session_handle, kick_frame(encode_utf8("Goodbye."@)))]
                },
            }),
            final(self).state == old(self).state,
            final(self).needs_boundary_test == old(self).needs_boundary_test,
            final(self).boundary == old(self).boundary,
            final(self).linked_chunks == old(self).linked_chunks,
            final(self).chunks_sent == old(self).chunks_sent,
            final(self).chunks_received == old(self).chunks_received,
            final(self).history == old(self).history,
            final(self).tool == old(self).tool,
            final(self).announced == old(self).announced,
            final(self).joined == old(self).joined,
            final(self).cleaned_up == old(self).cleaned_up,
            final(self).tool_state == old(self).tool_state,
            final(self).serial_generator == old(self).serial_generator,
    {
        let ghost sent = delivered(outbox@);
        let word = word_from(msg, 0);
        let redacted = is_text(&word, "admin");
        let mut echo = String::from_str("[color=green]/");
        if redacted {
            echo.append("&lt;redacted&gt;");
        } else {
            let shown = string_of(msg);
            echo.append(shown.as_str());
        }
        echo.append("[/color]");
        self.send_reply_stylized(session_handle, echo, outbox);
        let ghost echoed = delivered(outbox@);
        let command = parse_chat_command(msg);
        let mut outcome = ChatOutcome::Nothing;
        match command {
            ChatCommand::Help => {
                self.send_reply_stylized(
                    session_handle,
                    String::from_str(
                        "\n\t\t\t\t\t\tUser commands:\n\t\t\t\t\t\t[color=blue]help[/color]: [i]Show this message[/i]\n\t\t\t\t\t\t[color=blue]leave[/color]: [i]Kick yourself[/i]\n\t\t\t\t\t\tAdmin commands:\n\t\t\t\t\t\t[color=red]admin[/color]: [i]Log-in as admin[/i]\n\t\t\t\t\t\t[color=red]process_preview_system[/color]: [i]Force-refresh preview system[/i]\n\t\t\t\t\t\t",
                    ),
                    outbox,
                );
            },
            ChatCommand::Leave => {
                self.kick(session_handle, "Goodbye.", outbox);
            },
            ChatCommand::Admin(given) => {
                match given {
                    Some(password) => {
                        match admin_password {
                            Some(config_password) => {
                                if !is_text(&password, config_password) {
                                    self.send_reply_stylized(
                                        session_handle,
                                        String::from_str("[color=red]Invalid password[/color]"),
                                        outbox,
                                    );
                                } else {
                                    self.admin_mode = true;
                                    self.send_reply_stylized(
                                        session_handle,
                                        String::from_str("[color=blue]Authenticated[/color]"),
                                        outbox,
                                    );
                                }
                            },
                            None => {
                                self.send_reply_stylized(
                                    session_handle,
                                    String::from_str(
                                        "[color=red]admin_password in settings.json is not set[/color]",
                                    ),
                                    outbox,
                                );
                            },
                        }
                    },
                    None => {
                        self.send_reply(
                            session_handle,
                            String::from_str("Usage: admin <password>"),
                            outbox,
                        );
                    },
                }
            },
            ChatCommand::ProcessPreviewSystem => {
                if !self.admin_mode {
                    self.send_unauthenticated(session_handle, outbox);
                } else {
                    self.send_reply(
                        session_handle,
                        String::from_str("Preview regeneration started"),
                        outbox,
                    );
                    outcome = ChatOutcome::RegeneratePreviews;
                }
            },
            ChatCommand::Unknown => {
                self.send_reply_stylized(
                    session_handle,
                    String::from_str("[color=red]Unknown command[/color]"),
                    outbox,
                );
            },
        }
        proof {
            let answer = command_answer(
                chat_command_of(msg@),
                old(self).admin_mode,
                password_view(admin_password),
            );
            match answer {
                Some((kind, text)) => {
                    assert(delivered(outbox@) =~= echoed + seq![
                        (*session_handle, message_frame(kind, encode_utf8(text))),
                    ]);
                },
                None => {
                    if old(self).kicked {
                        assert(delivered(outbox@) =~= echoed + Seq::empty());
                    } else {
                        assert(delivered(outbox@) =~= echoed + seq![
                            (*session_handle, kick_frame(encode_utf8("Goodbye."@))),
                        ]);
                    }
                },
            }
        }
        outcome
    }

    /// Takes what a client wrote in the chat. A text with a `/` in front is
    /// a command, any other is shown to the room; an empty text is passed
    /// over. A text of more than 1000 bytes, or one that is not UTF-8, is a
    /// misuse.
    pub fn process_command_message(
        &mut self,
        session_handle: &SessionHandle,
        text: &[u8],
        room: &RoomInstance,
        admin_password: Option<&str>,
        outbox: &mut Vec<Delivery>,
    ) -> (outcome: Result<ChatOutcome, ProtocolError>)
        ensures
            chat_effect(
                *old(self),
                *final(self),
                room.sessions@,
                delivered(old(outbox)@),
                delivered(final(outbox)@),
                *session_handle,
                text@,
                password_view(admin_password),
                outcome,
            ),
    {
        if text.len() > MESSAGE_LEN_MAX as usize {
            return Err(ProtocolError::MessageTooLong(text.len()));
        }
        let message = match utf8_to_string(text) {
            Some(s) => s,
            None => {
                return Err(ProtocolError::Frame(FrameError::InvalidUtf8));
            },
        };
        let chars = chars_of(message.as_str());
        if chars.len() == 0 {
            return Ok(ChatOutcome::Nothing);
        }
        if chars[0] == '/' {
            let rest = vstd::slice::slice_subrange(chars.as_slice(), 1, chars.len());
            assert(rest@ =~= chars@.skip(1));
            Ok(self.handle_chat_command(session_handle, rest, admin_password, outbox))
        } else {
            self.handle_chat_message(room, message.as_str(), outbox);
            Ok(ChatOutcome::Nothing)
        }
    }
}

/// What a text of the chat does: see `process_command_message`.
pub open spec fn chat_effect(
    before: SessionInstance,
    after: SessionInstance,
    sessions: Seq<RoomSessionData>,
    sent_before: Seq<(SessionHandle, Seq<u8>)>,
    sent_after: Seq<(SessionHandle, Seq<u8>)>,
    session_handle: SessionHandle,
    text: Seq<u8>,
    password: Option<Seq<char>>,
    outcome: Result<ChatOutcome, ProtocolError>,
) -> bool {
    if text.len() > 1000 {
        &&& after == before
        &&& sent_after == sent_before
        &&& outcome == Err::<ChatOutcome, ProtocolError>(
            ProtocolError::MessageTooLong(text.len() as usize),
        )
    } else if !valid_utf8(text) {
        &&& after == before
        &&& sent_after == sent_before
        &&& outcome == Err::<ChatOutcome, ProtocolError>(ProtocolError::Frame(FrameError::InvalidUtf8))
    } else if decode_utf8(text).len() == 0 {
        &&& after == before
        &&& sent_after == sent_before
        &&& outcome == Ok::<ChatOutcome, ProtocolError>(ChatOutcome::Nothing)
    } else if decode_utf8(text)[0] != '/' {
        &&& after == before
        &&& outcome == Ok::<ChatOutcome, ProtocolError>(ChatOutcome::Nothing)
        &&& sent_after == sent_before + broadcast_frames(
            sessions,
            message_frame(
                MessageType::PlainText,
                encode_utf8(chat_line(before.state.nick_name@, decode_utf8(text))),
            ),
            None,
        )
    } else {
        let msg = decode_utf8(text).skip(1);
        &&& outcome == Ok::<ChatOutcome, ProtocolError>(
            if chat_command_of(msg) is ProcessPreviewSystem && before.admin_mode {
                ChatOutcome::RegeneratePreviews
            } else {
                ChatOutcome::Nothing
            },
        )
        &&& after == (SessionInstance {
            admin_mode: before.admin_mode || command_authenticates(chat_command_of(msg), password),
            kicked: before.kicked || chat_command_of(msg) is Leave,
            ..before
        })
        &&& sent_after == sent_before.push(
            (session_handle, message_frame(MessageType::Html, encode_utf8(command_echo(msg)))),
        ) + (match command_answer(chat_command_of(msg), before.admin_mode, password) {
            Some((kind, words)) => seq![(session_handle, message_frame(kind, encode_utf8(words)))],
            None => if before.kicked {
                Seq::empty()
            } else {
                seq![(session_handle, kick_frame(encode_utf8("Goodbye."@)))]
            },
        })
    }
}

/// The characters of an optional password.
pub open spec fn password_view(admin_password: Option<&str>) -> Option<Seq<char>> {
    match admin_password {
        Some(p) => Some(p@),
        None => None,
    }
}

} // verus!
