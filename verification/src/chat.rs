//! What is asked of a chat model, and the errors that a request is answered with.

use vstd::prelude::*;

verus! {

/// An error with the HTTP status that it is answered with.
#[derive(Debug)]
pub struct AppError {
    pub status: u16,
    pub message: String,
}

/// The model of an [`AppError`].
#[verifier::ext_equal]
pub struct ErrorView {
    pub status: u16,
    pub message: Seq<char>,
}

impl View for AppError {
    type V = ErrorView;

    open spec fn view(&self) -> ErrorView {
        ErrorView { status: self.status, message: self.message@ }
    }
}

/// The request cannot be served as it is.
pub open spec fn bad(message: Seq<char>) -> ErrorView {
    ErrorView { status: 400, message }
}

/// The request is fine, and serving it failed.
pub open spec fn broken(message: Seq<char>) -> ErrorView {
    ErrorView { status: 500, message }
}

impl AppError {
    /// The request cannot be served as it is.
    pub fn bad_request(message: &str) -> (r: AppError)
        ensures
            r@ == bad(message@),
    {
        AppError { status: 400, message: message.to_owned() }
    }

    /// The request is fine, and serving it failed.
    pub fn internal(message: &str) -> (r: AppError)
        ensures
            r@ == broken(message@),
    {
        AppError { status: 500, message: message.to_owned() }
    }
}

#[derive(Clone, Copy, Debug, PartialEq, Eq, Structural)]
pub enum Role {
    System,
    User,
}

/// One message to a chat model.
pub struct ChatMessage {
    pub role: Role,
    pub content: String,
}

/// The model of a [`ChatMessage`].
#[verifier::ext_equal]
pub struct MessageView {
    pub role: Role,
    pub content: Seq<char>,
}

impl View for ChatMessage {
    type V = MessageView;

    open spec fn view(&self) -> MessageView {
        MessageView { role: self.role, content: self.content@ }
    }
}

/// One question to a chat model. The temperature is in tenths.
pub struct ChatPlan {
    pub messages: Vec<ChatMessage>,
    pub temperature_tenths: u32,
    pub max_tokens: u32,
}

/// The model of a [`ChatPlan`].
#[verifier::ext_equal]
pub struct PlanView {
    pub messages: Seq<MessageView>,
    pub temperature_tenths: u32,
    pub max_tokens: u32,
}

/// The models of a list of messages.
pub open spec fn message_views(v: Seq<ChatMessage>) -> Seq<MessageView> {
    v.map_values(|m: ChatMessage| m@)
}

impl View for ChatPlan {
    type V = PlanView;

    open spec fn view(&self) -> PlanView {
        PlanView {
            messages: message_views(self.messages@),
            temperature_tenths: self.temperature_tenths,
            max_tokens: self.max_tokens,
        }
    }
}

/// A message of the application.
pub open spec fn says(content: Seq<char>) -> MessageView {
    MessageView { role: Role::System, content }
}

/// A message of the user.
pub open spec fn asks(content: Seq<char>) -> MessageView {
    MessageView { role: Role::User, content }
}

/// The messages of a question: the application's orders, the excerpts of linked notes where there
/// are any, and what the user asks.
pub open spec fn with_context(
    orders: Seq<char>,
    context: Option<Seq<char>>,
    question: Seq<char>,
) -> Seq<MessageView> {
    match context {
        Some(c) => if c.len() > 0 {
            seq![says(orders), says(c), asks(question)]
        } else {
            seq![says(orders), asks(question)]
        },
        None => seq![says(orders), asks(question)],
    }
}

/// A question of the given size.
pub open spec fn plan_of(
    messages: Seq<MessageView>,
    temperature_tenths: u32,
    max_tokens: u32,
) -> PlanView {
    PlanView { messages, temperature_tenths, max_tokens }
}

/// The question with its orders and, where there are any, the excerpts of linked notes.
pub fn plan_question(
    orders: &str,
    context: Option<&str>,
    question: String,
    temperature_tenths: u32,
    max_tokens: u32,
) -> (r: ChatPlan)
    ensures
        r@ == plan_of(
            with_context(orders@, crate::text::opt_str_view(context), question@),
            temperature_tenths,
            max_tokens,
        ),
{
    let mut messages: Vec<ChatMessage> = Vec::new();
    messages.push(ChatMessage { role: Role::System, content: orders.to_owned() });
    if let Some(c) = context {
        if !c.is_empty() {
            messages.push(ChatMessage { role: Role::System, content: c.to_owned() });
        }
    }
    messages.push(ChatMessage { role: Role::User, content: question });
    assert(message_views(messages@) =~= with_context(
        orders@,
        crate::text::opt_str_view(context),
        question@,
    ));
    ChatPlan { messages, temperature_tenths, max_tokens }
}

/// The model of what a step gives: a text or an error.
pub open spec fn result_view(r: Result<String, AppError>) -> Result<Seq<char>, ErrorView> {
    match r {
        Ok(t) => Ok(t@),
        Err(e) => Err(e@),
    }
}

/// The model of what planning gives: a question or an error.
pub open spec fn plan_view(r: Result<ChatPlan, AppError>) -> Result<PlanView, ErrorView> {
    match r {
        Ok(p) => Ok(p@),
        Err(e) => Err(e@),
    }
}

/// A refused request and a failed one are told apart by their status, and both say why.
pub proof fn law_errors_tell_their_kind(message: Seq<char>)
    ensures
        bad(message).status == 400 && bad(message).message == message,
        broken(message).status == 500 && broken(message).message == message,
{
}

/// A question is put last, as the user's, after the orders, which come first, and after a context
/// that has something in it. Nothing else is said.
pub proof fn law_orders_come_first(orders: Seq<char>, context: Option<Seq<char>>, question: Seq<char>)
    ensures
        ({
            let said = with_context(orders, context, question);
            let filled = context matches Some(c) && c.len() > 0;
            &&& said.len() == if filled {
                3int
            } else {
                2
            }
            &&& said[0].role is System && said[0].content == orders
            &&& said.last().role is User && said.last().content == question
            &&& filled ==> said[1].role is System && Some(said[1].content) == context
        }),
{
}

} // verus!
