//! What holds of the conversation with the tutor: what is written to it on which request, what its
//! messages lead to, and when it can be talked to again.

use crate::codex::{
    awaiting, command_step, message_step, opening, CodexActionView, CodexCommandView,
    CodexStep, CodexView, Method, TurnPurpose, TUTOR_INSTRUCTIONS,
};
use crate::json::{number_of, number_value, pretty, JsonTree};
use crate::protocol::{AuthStateView, CodexEventView};
use vstd::prelude::*;

verus! {

/// Whether an action asks the tutor for something, by the name of a method and under an identifier.
pub open spec fn asks(action: CodexActionView, method: Seq<char>, id: u64) -> bool {
    &&& action is Write
    &&& action->Write_0.get("method"@) == Some(JsonTree::Text(method))
    &&& action->Write_0.get("id"@) == Some(JsonTree::Number(number_of(id)))
    &&& action->Write_0.get("params"@) is Some
}

/// What comes with a request, under a name.
pub open spec fn asked_with(action: CodexActionView, name: Seq<char>) -> Option<JsonTree> {
    action->Write_0.get2("params"@, name)
}

/// Whether a message is no answer: it carries no identifier.
pub open spec fn is_notification(message: JsonTree, method: Seq<char>) -> bool {
    &&& !(message.get("id"@) matches Some(JsonTree::Number(number)) && number_value(
        number,
    ) is Some)
    &&& message.get("method"@) == Some(JsonTree::Text(method))
}

/// Whether a message answers the request with an identifier, and reports no error.
pub open spec fn is_answer(message: JsonTree, id: u64) -> bool {
    &&& message.get("id"@) matches Some(JsonTree::Number(number)) && number_value(number) == Some(
        id,
    )
    &&& message.get("error"@) is None
}

/// The text under a path in a message, where there is one.
pub open spec fn text_under(value: Option<JsonTree>) -> Option<Seq<char>> {
    match value {
        Some(JsonTree::Text(text)) => Some(text),
        _ => None,
    }
}

proof fn lemma_message_names_differ()
    ensures
        "method"@ != "id"@,
        "method"@ != "params"@,
        "method"@ != "error"@,
        "id"@ != "params"@,
        "id"@ != "error"@,
        "params"@ != "error"@,
{
    reveal_strlit("method");
    reveal_strlit("id");
    reveal_strlit("params");
    reveal_strlit("error");
    assert("method"@.len() == 6);
    assert("id"@.len() == 2);
    assert("params"@.len() == 6);
    assert("error"@.len() == 5);
    assert("method"@[0] != "params"@[0]);
}

proof fn lemma_notifications_differ()
    ensures
        "item/agentMessage/delta"@ != "turn/started"@,
        "item/agentMessage/delta"@ != "turn/completed"@,
        "item/agentMessage/delta"@ != "account/updated"@,
        "item/agentMessage/delta"@ != "account/login/completed"@,
        "turn/started"@ != "turn/completed"@,
        "turn/started"@ != "account/updated"@,
        "turn/started"@ != "account/login/completed"@,
        "turn/completed"@ != "account/updated"@,
        "turn/completed"@ != "account/login/completed"@,
        "account/updated"@ != "account/login/completed"@,
{
    reveal_strlit("item/agentMessage/delta");
    reveal_strlit("turn/started");
    reveal_strlit("turn/completed");
    reveal_strlit("account/updated");
    reveal_strlit("account/login/completed");
    assert("item/agentMessage/delta"@.len() == 23);
    assert("turn/started"@.len() == 12);
    assert("turn/completed"@.len() == 14);
    assert("account/updated"@.len() == 15);
    assert("account/login/completed"@.len() == 23);
    assert("item/agentMessage/delta"@[0] != "account/login/completed"@[0]);
}

proof fn lemma_turn_names_differ()
    ensures
        "threadId"@ != "input"@,
        "threadId"@ != "cwd"@,
        "threadId"@ != "approvalPolicy"@,
        "threadId"@ != "sandboxPolicy"@,
        "input"@ != "cwd"@,
        "input"@ != "approvalPolicy"@,
        "input"@ != "sandboxPolicy"@,
        "cwd"@ != "approvalPolicy"@,
        "cwd"@ != "sandboxPolicy"@,
        "approvalPolicy"@ != "sandboxPolicy"@,
{
    reveal_strlit("threadId");
    reveal_strlit("input");
    reveal_strlit("cwd");
    reveal_strlit("approvalPolicy");
    reveal_strlit("sandboxPolicy");
    assert("threadId"@.len() == 8);
    assert("input"@.len() == 5);
    assert("cwd"@.len() == 3);
    assert("approvalPolicy"@.len() == 14);
    assert("sandboxPolicy"@.len() == 13);
}

proof fn lemma_thread_names_differ()
    ensures
        "cwd"@ != "developerInstructions"@,
        "cwd"@ != "sandbox"@,
        "cwd"@ != "approvalPolicy"@,
        "cwd"@ != "personality"@,
        "developerInstructions"@ != "sandbox"@,
        "developerInstructions"@ != "approvalPolicy"@,
        "developerInstructions"@ != "personality"@,
        "sandbox"@ != "approvalPolicy"@,
        "sandbox"@ != "personality"@,
        "approvalPolicy"@ != "personality"@,
{
    reveal_strlit("cwd");
    reveal_strlit("developerInstructions");
    reveal_strlit("sandbox");
    reveal_strlit("approvalPolicy");
    reveal_strlit("personality");
    assert("cwd"@.len() == 3);
    assert("developerInstructions"@.len() == 21);
    assert("sandbox"@.len() == 7);
    assert("approvalPolicy"@.len() == 14);
    assert("personality"@.len() == 11);
}

proof fn lemma_small_names_differ()
    ensures
        "type"@ != "text"@,
        "threadId"@ != "turnId"@,
        "name"@ != "title"@,
        "name"@ != "version"@,
        "title"@ != "version"@,
        "type"@ != "useHostedLoginSuccessPage"@,
        "type"@ != "appBrand"@,
        "useHostedLoginSuccessPage"@ != "appBrand"@,
{
    reveal_strlit("type");
    reveal_strlit("text");
    reveal_strlit("threadId");
    reveal_strlit("turnId");
    reveal_strlit("name");
    reveal_strlit("title");
    reveal_strlit("version");
    reveal_strlit("useHostedLoginSuccessPage");
    reveal_strlit("appBrand");
    assert("type"@.len() == 4);
    assert("text"@.len() == 4);
    assert("threadId"@.len() == 8);
    assert("turnId"@.len() == 6);
    assert("name"@.len() == 4);
    assert("title"@.len() == 5);
    assert("version"@.len() == 7);
    assert("useHostedLoginSuccessPage"@.len() == 25);
    assert("appBrand"@.len() == 8);
    assert("type"@[1] != "text"@[1]);
}


/// Whether an action starts a turn in a thread: with the text that was sent, and what was observed
/// in the lab behind it.
pub open spec fn starts_turn(
    action: CodexActionView,
    id: u64,
    thread: Seq<char>,
    cwd: Seq<char>,
    text: Seq<char>,
    context: JsonTree,
) -> bool {
    let whole = text + "\n\n<kuebiko_context version=\"1\">\n"@ + pretty(context)
        + "\n</kuebiko_context>"@;
    &&& asks(action, "turn/start"@, id)
    &&& asked_with(action, "threadId"@) == Some(JsonTree::Text(thread))
    &&& asked_with(action, "cwd"@) == Some(JsonTree::Text(cwd))
    &&& asked_with(action, "approvalPolicy"@) == Some(JsonTree::Text("never"@))
    &&& asked_with(action, "sandboxPolicy"@) matches Some(policy) && policy.get("type"@) == Some(
        JsonTree::Text("readOnly"@),
    )
    &&& asked_with(action, "input"@) matches Some(JsonTree::Array(input)) && {
        &&& input.len() == 1
        &&& input[0].get("type"@) == Some(JsonTree::Text("text"@))
        &&& input[0].get("text"@) == Some(JsonTree::Text(whole))
    }
}

/// Whether an action starts a thread: where the lab is, and with what the learner wants.
pub open spec fn starts_thread(
    action: CodexActionView,
    id: u64,
    cwd: Seq<char>,
    objective: Seq<char>,
) -> bool {
    &&& asks(action, "thread/start"@, id)
    &&& asked_with(action, "cwd"@) == Some(JsonTree::Text(cwd))
    &&& asked_with(action, "developerInstructions"@) == Some(
        JsonTree::Text(TUTOR_INSTRUCTIONS@ + "\n\nThe learner's objective is: "@ + objective),
    )
    &&& asked_with(action, "sandbox"@) == Some(JsonTree::Text("read-only"@))
    &&& asked_with(action, "approvalPolicy"@) == Some(JsonTree::Text("never"@))
    &&& asked_with(action, "personality"@) == Some(JsonTree::Text("friendly"@))
}

/// The session with one more request, which awaits its answer.
pub open spec fn with_request(session: CodexView, method: Method) -> CodexView {
    CodexView {
        next_id: (session.next_id + 1) as u64,
        pending: session.pending.insert(session.next_id, method),
        ..session
    }
}

/// What comes of a text that is sent.
pub open spec fn sent(
    session: CodexView,
    text: Seq<char>,
    context: JsonTree,
    purpose: TurnPurpose,
) -> CodexStep {
    command_step(session, Some(CodexCommandView::Send { text, context, purpose }))
}

/// The event that tells the clients that a turn begins.
pub open spec fn begins(text: Seq<char>, purpose: TurnPurpose) -> CodexActionView {
    match purpose {
        TurnPurpose::Tutor => CodexActionView::Emit(CodexEventView::User { text }),
        TurnPurpose::Writeup => CodexActionView::Emit(CodexEventView::WriteupStarted),
    }
}

/// A text that is sent while no turn runs, in a conversation with a thread, starts a turn with that
/// text, and the clients are told of it first.
pub proof fn law_texts_start_turns(
    session: CodexView,
    thread: Seq<char>,
    text: Seq<char>,
    context: JsonTree,
    purpose: TurnPurpose,
)
    requires
        session.turn_id is None,
        session.thread_id == Some(thread),
    ensures
        ({
            let step = sent(session, text, context, purpose);
            &&& step.actions.len() == 2
            &&& step.actions[0] == begins(text, purpose)
            &&& starts_turn(
                step.actions[1],
                session.next_id,
                thread,
                session.cwd,
                text,
                context,
            )
            &&& step.session == with_request(
                CodexView { turn_purpose: purpose, ..session },
                Method::StartTurn,
            )
        }),
{
    lemma_message_names_differ();
    lemma_turn_names_differ();
    lemma_small_names_differ();
}

/// A text that is sent before there is a thread starts one, and the sender is told to try again; a
/// write-up is over at once.
pub proof fn law_texts_without_a_thread_start_one(
    session: CodexView,
    text: Seq<char>,
    context: JsonTree,
    purpose: TurnPurpose,
)
    requires
        session.turn_id is None,
        session.thread_id is None,
    ensures
        ({
            let step = sent(session, text, context, purpose);
            &&& step.actions[0] == begins(text, purpose)
            &&& starts_thread(step.actions[1], session.next_id, session.cwd, session.objective)
            &&& step.actions[2] == CodexActionView::Emit(
                CodexEventView::Notice {
                    text: "Codex thread is still starting; try again in a moment."@,
                },
            )
            &&& match purpose {
                TurnPurpose::Tutor => step.actions.len() == 3,
                TurnPurpose::Writeup => step.actions.len() == 4 && step.actions[3]
                    == CodexActionView::Emit(
                    CodexEventView::WriteupCompleted { status: "thread-starting"@ },
                ),
            }
            &&& step.session == with_request(
                CodexView { turn_purpose: purpose, ..session },
                Method::StartThread,
            )
        }),
{
    lemma_message_names_differ();
    lemma_thread_names_differ();
}

/// A text that is sent while a turn runs is refused: nothing is written, the session stays as it
/// was, and the sender is told to wait.
pub proof fn law_texts_wait_for_the_turn(
    session: CodexView,
    turn: Seq<char>,
    text: Seq<char>,
    context: JsonTree,
    purpose: TurnPurpose,
)
    requires
        session.turn_id == Some(turn),
    ensures
        sent(session, text, context, purpose).session == session,
        sent(session, text, context, purpose).actions == seq![
            CodexActionView::Emit(
                match purpose {
                    TurnPurpose::Tutor => CodexEventView::Notice {
                        text: "Wait for the current Codex response to finish before sending another message."@,
                    },
                    TurnPurpose::Writeup => CodexEventView::WriteupCompleted { status: "busy"@ },
                },
            ),
        ],
{
}

/// A turn runs from when the tutor says that it started until it says that it is over, whatever the
/// turn was for; then the next text starts a turn again, and the turns are the tutor's.
pub proof fn law_turns_end_when_they_are_completed(
    session: CodexView,
    message: JsonTree,
    thread: Seq<char>,
    text: Seq<char>,
    context: JsonTree,
    purpose: TurnPurpose,
)
    requires
        is_notification(message, "turn/completed"@),
    ensures
        ({
            let over = message_step(session, message);
            let status = match text_under(message.get3("params"@, "turn"@, "status"@)) {
                Some(status) => status,
                None => "completed"@,
            };
            &&& over.session == (CodexView {
                turn_id: None,
                turn_purpose: TurnPurpose::Tutor,
                ..session
            })
            &&& over.actions == seq![
                CodexActionView::Emit(
                    match session.turn_purpose {
                        TurnPurpose::Tutor => CodexEventView::Completed { status },
                        TurnPurpose::Writeup => CodexEventView::WriteupCompleted { status },
                    },
                ),
            ]
            &&& session.thread_id == Some(thread) ==> {
                let next = sent(over.session, text, context, purpose);
                &&& next.actions.len() == 2
                &&& next.actions[0] == begins(text, purpose)
                &&& starts_turn(
                    next.actions[1],
                    session.next_id,
                    thread,
                    session.cwd,
                    text,
                    context,
                )
            }
        }),
{
    lemma_notifications_differ();
    let over = message_step(session, message);
    if session.thread_id == Some(thread) {
        law_texts_start_turns(over.session, thread, text, context, purpose);
    }
}

/// Once the tutor says that a turn has started, the turn runs under its identifier: a text is
/// refused, and what is asked for by an interruption is that this turn be interrupted.
pub proof fn law_started_turns_run(
    session: CodexView,
    message: JsonTree,
    thread: Seq<char>,
    turn: Seq<char>,
)
    requires
        is_notification(message, "turn/started"@),
        message.get3("params"@, "turn"@, "id"@) == Some(JsonTree::Text(turn)),
    ensures
        ({
            let begun = message_step(session, message);
            &&& begun.actions.len() == 0
            &&& begun.session == (CodexView { turn_id: Some(turn), ..session })
            &&& session.thread_id == Some(thread) ==> {
                let step = command_step(begun.session, Some(CodexCommandView::Interrupt));
                &&& step.actions.len() == 1
                &&& asks(step.actions[0], "turn/interrupt"@, session.next_id)
                &&& asked_with(step.actions[0], "threadId"@) == Some(JsonTree::Text(thread))
                &&& asked_with(step.actions[0], "turnId"@) == Some(JsonTree::Text(turn))
                &&& step.session == with_request(begun.session, Method::InterruptTurn)
            }
        }),
{
    lemma_notifications_differ();
    lemma_message_names_differ();
    lemma_small_names_differ();
}

/// A turn that starts without an identifier does not run, and an answer without a page to sign in
/// at shows none.
pub proof fn law_messages_without_their_text_lead_nowhere(
    session: CodexView,
    message: JsonTree,
    answer: JsonTree,
    id: u64,
)
    requires
        is_notification(message, "turn/started"@),
        text_under(message.get3("params"@, "turn"@, "id"@)) is None,
        is_answer(answer, id),
        awaiting(session, id) == Some(Method::StartLogin),
        text_under(answer.get2("result"@, "authUrl"@)) is None,
    ensures
        message_step(session, message).actions.len() == 0,
        message_step(session, message).session == (CodexView { turn_id: None, ..session }),
        message_step(session, answer).actions.len() == 0,
        message_step(session, answer).session == (CodexView {
            pending: session.pending.remove(id),
            ..session
        }),
{
    lemma_notifications_differ();
}

/// Where no turn runs, or in no thread, there is nothing to interrupt.
pub proof fn law_nothing_is_interrupted_without_a_turn(session: CodexView)
    requires
        session.turn_id is None || session.thread_id is None,
    ensures
        command_step(session, Some(CodexCommandView::Interrupt)).session == session,
        command_step(session, Some(CodexCommandView::Interrupt)).actions.len() == 0,
{
}

/// A lab that is set up leaves nothing of the conversation before: the thread of the lab is resumed
/// where it has one, and else a new one is started, in the lab's directory and with its objective.
pub proof fn law_labs_have_their_own_thread(
    session: CodexView,
    cwd: Seq<char>,
    objective: Seq<char>,
    thread: Seq<char>,
)
    ensures
        ({
            let configured = CodexView {
                cwd,
                objective,
                thread_id: None,
                turn_id: None,
                ..session
            };
            let fresh = command_step(
                session,
                Some(CodexCommandView::Configure { cwd, objective, resume_thread: None }),
            );
            let resumed = command_step(
                session,
                Some(CodexCommandView::Configure { cwd, objective, resume_thread: Some(thread) }),
            );
            &&& fresh.actions.len() == 1
            &&& starts_thread(fresh.actions[0], session.next_id, cwd, objective)
            &&& fresh.session == with_request(configured, Method::StartThread)
            &&& resumed.actions.len() == 1
            &&& asks(resumed.actions[0], "thread/resume"@, session.next_id)
            &&& asked_with(resumed.actions[0], "threadId"@) == Some(JsonTree::Text(thread))
            &&& resumed.session == with_request(configured, Method::ResumeThread)
        }),
{
    lemma_message_names_differ();
    lemma_thread_names_differ();
}

/// A new conversation starts a thread for the same lab, and the thread and the turn before are
/// forgotten.
pub proof fn law_new_threads_are_for_the_same_lab(session: CodexView)
    ensures
        ({
            let step = command_step(session, Some(CodexCommandView::NewThread));
            &&& step.actions.len() == 1
            &&& starts_thread(step.actions[0], session.next_id, session.cwd, session.objective)
            &&& step.session == with_request(
                CodexView { thread_id: None, turn_id: None, ..session },
                Method::StartThread,
            )
        }),
{
    lemma_message_names_differ();
    lemma_thread_names_differ();
}

/// The thread that the tutor answers with, to a request for a new one or for an old one, is the
/// thread of the conversation from then on, and the clients are told. The answer is taken once.
pub proof fn law_threads_are_taken_over(
    session: CodexView,
    message: JsonTree,
    id: u64,
    thread: Seq<char>,
)
    requires
        is_answer(message, id),
        awaiting(session, id) == Some(Method::StartThread) || awaiting(session, id) == Some(
            Method::ResumeThread,
        ),
    ensures
        message.get3("result"@, "thread"@, "id"@) == Some(JsonTree::Text(thread)) ==> {
            let step = message_step(session, message);
            &&& step.session == (CodexView {
                thread_id: Some(thread),
                pending: session.pending.remove(id),
                ..session
            })
            &&& step.actions == seq![
                CodexActionView::Emit(CodexEventView::Thread { thread_id: thread }),
            ]
        },
        text_under(message.get3("result"@, "thread"@, "id"@)) is None ==> {
            let step = message_step(session, message);
            &&& step.session == (CodexView { pending: session.pending.remove(id), ..session })
            &&& step.actions.len() == 0
        },
{
}

/// The conversation goes from a request for a thread to a turn in it: once the thread is there, a
/// text starts a turn in that thread.
pub proof fn law_a_thread_leads_to_turns(
    session: CodexView,
    message: JsonTree,
    thread: Seq<char>,
    text: Seq<char>,
    context: JsonTree,
    purpose: TurnPurpose,
)
    requires
        session.next_id < u64::MAX,
        is_answer(message, session.next_id),
        message.get3("result"@, "thread"@, "id"@) == Some(JsonTree::Text(thread)),
    ensures
        ({
            let asked = command_step(session, Some(CodexCommandView::NewThread));
            let there = message_step(asked.session, message);
            let step = sent(there.session, text, context, purpose);
            &&& there.session.thread_id == Some(thread)
            &&& step.actions.len() == 2
            &&& step.actions[0] == begins(text, purpose)
            &&& starts_turn(
                step.actions[1],
                (session.next_id + 1) as u64,
                thread,
                session.cwd,
                text,
                context,
            )
        }),
{
    let asked = command_step(session, Some(CodexCommandView::NewThread));
    law_new_threads_are_for_the_same_lab(session);
    law_threads_are_taken_over(asked.session, message, session.next_id, thread);
    let there = message_step(asked.session, message);
    law_texts_start_turns(there.session, thread, text, context, purpose);
}

/// What the tutor says of the account is taken over: somebody is signed in where the account has a
/// type, or else a way of signing in.
pub proof fn law_accounts_are_taken_over(
    session: CodexView,
    message: JsonTree,
    id: u64,
    update: JsonTree,
)
    requires
        is_answer(message, id),
        awaiting(session, id) == Some(Method::ReadAccount),
        is_notification(update, "account/updated"@),
    ensures
        ({
            let step = message_step(session, message);
            let kind = message.get3("result"@, "account"@, "type"@);
            let mode = if kind is Some {
                text_under(kind)
            } else {
                text_under(message.get3("result"@, "account"@, "authMode"@))
            };
            &&& step.session == (CodexView { pending: session.pending.remove(id), ..session })
            &&& step.actions == seq![
                CodexActionView::Account(
                    AuthStateView {
                        authenticated: mode is Some,
                        mode,
                        plan: text_under(message.get3("result"@, "account"@, "planType"@)),
                    },
                ),
            ]
        }),
        ({
            let step = message_step(session, update);
            let mode = text_under(update.get2("params"@, "authMode"@));
            &&& step.session == session
            &&& step.actions == seq![
                CodexActionView::Account(
                    AuthStateView {
                        authenticated: mode is Some,
                        mode,
                        plan: text_under(update.get2("params"@, "planType"@)),
                    },
                ),
            ]
        }),
{
    lemma_notifications_differ();
}

/// Somebody who wants to sign in is shown where: the page that the tutor answers with.
pub proof fn law_signing_in_leads_to_a_page(
    session: CodexView,
    message: JsonTree,
    url: Seq<char>,
)
    requires
        session.next_id < u64::MAX,
        is_answer(message, session.next_id),
        message.get2("result"@, "authUrl"@) == Some(JsonTree::Text(url)),
    ensures
        ({
            let asked = command_step(session, Some(CodexCommandView::Login));
            let step = message_step(asked.session, message);
            &&& asked.actions.len() == 1
            &&& asks(asked.actions[0], "account/login/start"@, session.next_id)
            &&& asked_with(asked.actions[0], "type"@) == Some(JsonTree::Text("chatgpt"@))
            &&& asked_with(asked.actions[0], "useHostedLoginSuccessPage"@) == Some(
                JsonTree::Bool(true),
            )
            &&& asked_with(asked.actions[0], "appBrand"@) == Some(JsonTree::Text("chatgpt"@))
            &&& asked.session == with_request(session, Method::StartLogin)
            &&& step.actions == seq![CodexActionView::Emit(CodexEventView::LoginUrl { url })]
        }),
{
    lemma_message_names_differ();
    lemma_small_names_differ();
}

/// Somebody whom the tutor did not let in is told why, and nobody else is told anything.
pub proof fn law_refused_logins_are_told(session: CodexView, message: JsonTree)
    requires
        is_notification(message, "account/login/completed"@),
    ensures
        message_step(session, message).session == session,
        message_step(session, message).actions == if message.get2("params"@, "success"@) == Some(
            JsonTree::Bool(false),
        ) {
            seq![
                CodexActionView::Emit(
                    CodexEventView::Notice {
                        text: match text_under(message.get2("params"@, "error"@)) {
                            Some(text) => text,
                            None => "Login failed"@,
                        },
                    },
                ),
            ]
        } else {
            seq![]
        },
{
    lemma_notifications_differ();
}

/// Each piece of the tutor's text is passed on as it comes, as part of the write-up while one is
/// written, and else as part of the reply. A message without a text is passed over.
pub proof fn law_replies_are_passed_on(session: CodexView, message: JsonTree)
    requires
        is_notification(message, "item/agentMessage/delta"@),
    ensures
        message_step(session, message).session == session,
        message_step(session, message).actions == match text_under(
            message.get2("params"@, "delta"@),
        ) {
            Some(text) => seq![
                CodexActionView::Emit(
                    match session.turn_purpose {
                        TurnPurpose::Tutor => CodexEventView::Delta { text },
                        TurnPurpose::Writeup => CodexEventView::WriteupDelta { text },
                    },
                ),
            ],
            None => seq![],
        },
{
    lemma_notifications_differ();
}

/// The name by which a request is told to have failed.
pub open spec fn name_of(method: Option<Method>) -> Seq<char> {
    match method {
        Some(Method::Initialize) => "initialize"@,
        Some(Method::ReadAccount) => "account/read"@,
        Some(Method::StartThread) => "thread/start"@,
        Some(Method::ResumeThread) => "thread/resume"@,
        Some(Method::StartTurn) => "turn/start"@,
        Some(Method::InterruptTurn) => "turn/interrupt"@,
        Some(Method::StartLogin) => "account/login/start"@,
        None => "request"@,
    }
}

/// Every request that fails is told of, by its name and with the reason, and its answer is taken.
/// A write-up whose turn could not start is over, and the next turn is the tutor's. Nothing else
/// changes.
pub proof fn law_failed_requests_are_told(
    session: CodexView,
    message: JsonTree,
    id: u64,
    error: JsonTree,
)
    requires
        message.get("id"@) matches Some(JsonTree::Number(number)) && number_value(number) == Some(
            id,
        ),
        message.get("error"@) == Some(error),
    ensures
        ({
            let step = message_step(session, message);
            let reason = match text_under(error.get("message"@)) {
                Some(text) => text,
                None => "unknown error"@,
            };
            let writeup = awaiting(session, id) == Some(Method::StartTurn) && session.turn_purpose
                == TurnPurpose::Writeup;
            let notice = CodexActionView::Emit(
                CodexEventView::Notice {
                    text: "Codex "@ + name_of(awaiting(session, id)) + " failed: "@ + reason,
                },
            );
            &&& step.actions == if writeup {
                seq![
                    notice,
                    CodexActionView::Emit(CodexEventView::WriteupCompleted { status: "failed"@ }),
                ]
            } else {
                seq![notice]
            }
            &&& step.session == (CodexView {
                pending: session.pending.remove(id),
                turn_purpose: if writeup {
                    TurnPurpose::Tutor
                } else {
                    session.turn_purpose
                },
                ..session
            })
        }),
{
}

/// An answer to a request that was not made, or to one that asks for nothing back, leads to nothing
/// but that it is no longer awaited.
pub proof fn law_other_answers_are_taken(session: CodexView, message: JsonTree, id: u64)
    requires
        is_answer(message, id),
        match awaiting(session, id) {
            Some(method) => method == Method::Initialize || method == Method::StartTurn || method
                == Method::InterruptTurn,
            None => true,
        },
    ensures
        message_step(session, message).actions.len() == 0,
        message_step(session, message).session == (CodexView {
            pending: session.pending.remove(id),
            ..session
        }),
{
}

/// Where the tutor asks leave for something, it is declined; all other messages are passed over.
/// The session stays as it was.
pub proof fn law_other_messages_are_passed_over(
    session: CodexView,
    message: JsonTree,
    method: Seq<char>,
)
    requires
        is_notification(message, method),
        method != "item/agentMessage/delta"@,
        method != "turn/started"@,
        method != "turn/completed"@,
        method != "account/updated"@,
        method != "account/login/completed"@,
    ensures
        message_step(session, message).session == session,
        message_step(session, message).actions == if "requestApproval"@.is_suffix_of(method) {
            seq![CodexActionView::Decline(method)]
        } else {
            seq![]
        },
{
    let end = "requestApproval"@;
    if end.len() <= method.len() {
        assert(method.skip(method.len() - end.len()) =~= method.subrange(
            method.len() - end.len(),
            method.len() as int,
        ));
    }
}

/// A message that is no answer and names no method is passed over.
pub proof fn law_messages_without_a_method_are_passed_over(session: CodexView, message: JsonTree)
    requires
        !(message.get("id"@) matches Some(JsonTree::Number(number)) && number_value(
            number,
        ) is Some),
        text_under(message.get("method"@)) is None,
    ensures
        message_step(session, message).session == session,
        message_step(session, message).actions.len() == 0,
{
}

/// The conversation opens with who is talking, and asks for the state of the account. There is no
/// thread yet, and no turn runs.
pub proof fn law_the_conversation_opens(version: Seq<char>)
    ensures
        ({
            let open = opening(version);
            let client = asked_with(open.actions[0], "clientInfo"@);
            &&& open.actions.len() == 3
            &&& asks(open.actions[0], "initialize"@, 1)
            &&& client matches Some(client) && {
                &&& client.get("name"@) == Some(JsonTree::Text("kuebiko"@))
                &&& client.get("title"@) == Some(JsonTree::Text("Kuebiko"@))
                &&& client.get("version"@) == Some(JsonTree::Text(version))
            }
            &&& open.actions[1] is Write
            &&& open.actions[1]->Write_0.get("method"@) == Some(JsonTree::Text("initialized"@))
            &&& open.actions[1]->Write_0.get("id"@) is None
            &&& asks(open.actions[2], "account/read"@, 2)
            &&& asked_with(open.actions[2], "refreshToken"@) == Some(JsonTree::Bool(false))
            &&& open.session.next_id == 3
            &&& awaiting(open.session, 1) == Some(Method::Initialize)
            &&& awaiting(open.session, 2) == Some(Method::ReadAccount)
            &&& open.session.thread_id is None
            &&& open.session.turn_id is None
            &&& open.session.turn_purpose == TurnPurpose::Tutor
        }),
{
    lemma_message_names_differ();
    lemma_small_names_differ();
}

/// The conversation ends where that is asked for, and where there are no more requests.
pub proof fn law_the_conversation_ends_on_request(session: CodexView)
    ensures
        command_step(session, Some(CodexCommandView::Shutdown)).actions == seq![
            CodexActionView::End,
        ],
        command_step(session, None).actions == seq![CodexActionView::End],
        command_step(session, Some(CodexCommandView::Shutdown)).session == session,
        command_step(session, None).session == session,
{
}

} // verus!
