//! Chat messages and the terminal output buffer.
use vstd::prelude::*;
use crate::text::owned;

verus! {

/// Author of a chat message.
#[derive(Clone, Copy, Debug, PartialEq, Eq, Structural)]
pub enum MessageRole {
    User,
    Assistant,
}

impl MessageRole {
    pub open spec fn name(&self) -> Seq<char> {
        match self {
            MessageRole::User => "user"@,
            MessageRole::Assistant => "assistant"@,
        }
    }

    /// The stored form of the role.
    pub fn as_str(&self) -> (r: &'static str)
        ensures
            r@ == self.name(),
    {
        match self {
            MessageRole::User => "user",
            MessageRole::Assistant => "assistant",
        }
    }

    /// Reads a stored role; anything but `assistant` is the user.
    pub fn parse(s: &str) -> (r: MessageRole)
        ensures
            r == (if s@ == "assistant"@ { MessageRole::Assistant } else { MessageRole::User }),
    {
        if owned(s) == owned("assistant") {
            MessageRole::Assistant
        } else {
            MessageRole::User
        }
    }
}

/// One stored chat message.
#[derive(Clone, Debug)]
pub struct Message {
    pub id: String,
    pub conversation_id: String,
    pub role: String,
    pub content: String,
    pub created_at: i64,
}

impl Message {
    /// The role, read from its stored form.
    pub fn role_enum(&self) -> (r: MessageRole)
        ensures
            r == (if self.role@ == "assistant"@ { MessageRole::Assistant } else { MessageRole::User }),
    {
        MessageRole::parse(self.role.as_str())
    }
}

/// A conversation's header.
#[derive(Clone, Debug)]
pub struct Conversation {
    pub id: String,
    pub title: String,
    pub created_at: i64,
    pub updated_at: i64,
}

/// Lines of command output, keeping at most `max_lines` of the latest (all when 0).
#[derive(Clone, Debug)]
pub struct TerminalOutput {
    pub lines: Vec<String>,
    pub max_lines: usize,
    pub auto_scroll: bool,
}

impl TerminalOutput {
    pub fn new(max_lines: usize) -> (r: Self)
        ensures
            r.lines.len() == 0,
            r.max_lines == max_lines,
            r.auto_scroll,
    {
        TerminalOutput { lines: Vec::new(), max_lines, auto_scroll: true }
    }

    /// Appends a line and drops the oldest one when the buffer overflows.
    pub fn add_line(&mut self, line: String)
        ensures
            final(self).max_lines == old(self).max_lines,
            final(self).auto_scroll == old(self).auto_scroll,
            final(self).lines@ == if old(self).max_lines > 0 && old(self).lines.len() + 1 > old(self).max_lines {
                old(self).lines@.push(line).drop_first()
            } else {
                old(self).lines@.push(line)
            },
    {
        self.lines.push(line);
        if self.max_lines > 0 && self.lines.len() > self.max_lines {
            let ghost pushed = self.lines@;
            self.lines.remove(0);
            proof {
                assert(self.lines@ =~= pushed.drop_first());
            }
        }
    }

    /// Removes every line.
    pub fn clear(&mut self)
        ensures
            final(self).lines.len() == 0,
            final(self).max_lines == old(self).max_lines,
            final(self).auto_scroll == old(self).auto_scroll,
    {
        self.lines.clear();
    }
}

} // verus!
