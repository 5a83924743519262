//! Output unit of the interpreter: a message carries a type tag acting as
//! a discriminator and a typed content payload. Messages are built once
//! per built-in invocation and owned by the step's output sequence.

use vstd::prelude::*;

verus! {

/// Payload of an output message.
#[derive(Debug, PartialEq)]
pub enum Content {
    Text(String),
    Button(String, Vec<String>),
}

/// One output message: a discriminator tag and its payload.
#[derive(Debug, PartialEq)]
pub struct Message {
    pub my_type: String,
    pub content: Content,
}

/// Wrapper that a built-in hands back when it produces a message.
#[derive(Debug, PartialEq)]
pub enum MessageType {
    Msg(Message),
}

/// Mathematical model of a message payload.
pub enum ContentModel {
    Text(Seq<char>),
    Button(Seq<char>, Seq<Seq<char>>),
}

/// Mathematical model of a message.
pub struct MessageModel {
    pub my_type: Seq<char>,
    pub content: ContentModel,
}

impl View for Content {
    type V = ContentModel;

    open spec fn view(&self) -> ContentModel {
        match self {
            Content::Text(t) => ContentModel::Text(t@),
            Content::Button(label, options) => ContentModel::Button(label@, options.deep_view()),
        }
    }
}

impl View for Message {
    type V = MessageModel;

    open spec fn view(&self) -> MessageModel {
        MessageModel { my_type: self.my_type@, content: self.content@ }
    }
}

impl View for MessageType {
    type V = MessageModel;

    open spec fn view(&self) -> MessageModel {
        match self {
            MessageType::Msg(m) => m@,
        }
    }
}

} // verus!
