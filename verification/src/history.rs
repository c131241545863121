//! What the streamer reads of the conversation history, and the changes of
//! that history that it reacts to.

use crate::text::{opt_text, texts};
use std::collections::HashMap;
use vstd::prelude::*;

verus! {

/// Identifies a conversation: the 128 bits of its UUID.
pub type AIConversationId = u128;

/// Identifies one exchange of a conversation: the 128 bits of its UUID.
pub type AIAgentExchangeId = u128;

/// Identifies a task of the server: the 128 bits of its UUID.
pub type AmbientAgentTaskId = u128;

/// One message of an exchange's output, as far as it concerns deliveries.
pub enum AIAgentOutputMessageType {
    /// The agent took in messages of other agents, with these ids.
    MessagesReceivedFromAgents { message_ids: Vec<String> },
    /// Anything else.
    Other,
}

impl View for AIAgentOutputMessageType {
    /// The ids of the messages that were taken in.
    type V = Seq<Seq<char>>;

    open spec fn view(&self) -> Seq<Seq<char>> {
        match *self {
            AIAgentOutputMessageType::MessagesReceivedFromAgents { message_ids } => texts(
                message_ids@,
            ),
            AIAgentOutputMessageType::Other => Seq::empty(),
        }
    }
}

/// One exchange between a user and an agent. The output is absent until some
/// of it has been streamed.
pub struct AIAgentExchange {
    pub output: Option<Vec<AIAgentOutputMessageType>>,
}

/// All ids in a list of lists, one list after the other.
pub open spec fn all_ids(lists: Seq<Seq<Seq<char>>>) -> Seq<Seq<char>>
    decreases lists.len(),
{
    if lists.len() == 0 {
        Seq::empty()
    } else {
        all_ids(lists.drop_last()) + lists.last()
    }
}

/// The ids that each message of an output took in.
pub open spec fn output_ids(messages: Seq<AIAgentOutputMessageType>) -> Seq<Seq<Seq<char>>> {
    messages.map_values(|m: AIAgentOutputMessageType| m@)
}

impl View for AIAgentExchange {
    /// The ids of the messages that the exchange's output took in, in order.
    type V = Seq<Seq<char>>;

    open spec fn view(&self) -> Seq<Seq<char>> {
        match self.output {
            Some(messages) => all_ids(output_ids(messages@)),
            None => Seq::empty(),
        }
    }
}

/// A conversation of the history.
pub struct AIConversation {
    /// It shows the session of somebody else.
    pub viewing_shared_session: bool,
    /// It stands in for a child agent that runs in another process.
    pub remote_child: bool,
    /// Its parent has a conversation in this process.
    pub child_agent_conversation: bool,
    /// The run id of its parent, where it is known.
    pub parent_agent_id: Option<String>,
    /// The id of its own run, once the server has assigned one.
    pub run_id: Option<String>,
    /// The task that its run id names, where it names one.
    pub task_id: Option<AmbientAgentTaskId>,
    /// The event sequence that was persisted last.
    pub last_event_sequence: Option<i64>,
    /// Its exchanges, by id.
    pub exchanges: HashMap<AIAgentExchangeId, AIAgentExchange>,
}

/// What an [`AIConversation`] says.
pub struct AIConversationView {
    pub viewing_shared_session: bool,
    pub remote_child: bool,
    pub child_agent_conversation: bool,
    pub parent_agent_id: Option<Seq<char>>,
    pub run_id: Option<Seq<char>>,
    pub task_id: Option<AmbientAgentTaskId>,
    pub last_event_sequence: Option<i64>,
    pub exchanges: Map<AIAgentExchangeId, Seq<Seq<char>>>,
}

impl View for AIConversation {
    type V = AIConversationView;

    open spec fn view(&self) -> AIConversationView {
        AIConversationView {
            viewing_shared_session: self.viewing_shared_session,
            remote_child: self.remote_child,
            child_agent_conversation: self.child_agent_conversation,
            parent_agent_id: opt_text(self.parent_agent_id),
            run_id: opt_text(self.run_id),
            task_id: self.task_id,
            last_event_sequence: self.last_event_sequence,
            exchanges: self.exchanges@.map_values(|e: AIAgentExchange| e@),
        }
    }
}

impl AIConversationView {
    /// It is a passive view of a run that another process hosts: that process
    /// owns the inbox.
    pub open spec fn is_remote_view(self) -> bool {
        self.viewing_shared_session || self.remote_child
    }

    /// It has the child role in a tree of agents.
    pub open spec fn is_child(self) -> bool {
        self.child_agent_conversation || self.parent_agent_id is Some
    }
}

impl AIConversation {
    /// Whether the conversation is a passive view of a run hosted elsewhere.
    pub fn is_remote_view(&self) -> (remote: bool)
        ensures
            remote == self@.is_remote_view(),
            remote == (self.viewing_shared_session || self.remote_child),
    {
        self.viewing_shared_session || self.remote_child
    }

    /// Whether the conversation has the child role.
    pub fn is_child(&self) -> (child: bool)
        ensures
            child == self@.is_child(),
            child == (self.child_agent_conversation || self.parent_agent_id is Some),
    {
        self.child_agent_conversation || self.parent_agent_id.is_some()
    }

    /// The exchange with the given id.
    pub fn exchange_with_id(&self, exchange_id: AIAgentExchangeId) -> (exchange: Option<
        &AIAgentExchange,
    >)
        ensures
            exchange is Some == self@.exchanges.contains_key(exchange_id),
            exchange matches Some(exchange) ==> exchange@ == self@.exchanges[exchange_id],
    {
        self.exchanges.get(&exchange_id)
    }
}

/// The conversations of a history, by id.
pub type HistoryView = Map<AIConversationId, AIConversationView>;

/// The conversation history, as it stands when the streamer is called.
pub struct BlocklistAIHistoryModel {
    pub conversations: HashMap<AIConversationId, AIConversation>,
}

impl View for BlocklistAIHistoryModel {
    type V = HistoryView;

    open spec fn view(&self) -> HistoryView {
        self.conversations@.map_values(|c: AIConversation| c@)
    }
}

impl BlocklistAIHistoryModel {
    /// A history without conversations.
    pub fn new() -> (history: Self)
        ensures
            history@ == HistoryView::empty(),
    {
        let history = BlocklistAIHistoryModel { conversations: HashMap::new() };
        assert(history@ =~= HistoryView::empty());
        history
    }

    /// Puts a conversation into the history, in the place of one with the
    /// same id.
    pub fn insert(&mut self, conversation_id: AIConversationId, conversation: AIConversation)
        ensures
            final(self)@ == old(self)@.insert(conversation_id, conversation@),
    {
        self.conversations.insert(conversation_id, conversation);
        assert(self@ =~= old(self)@.insert(conversation_id, conversation@));
    }

    /// Looks a conversation up.
    pub fn conversation(&self, conversation_id: AIConversationId) -> (conversation: Option<
        &AIConversation,
    >)
        ensures
            conversation is Some == self@.contains_key(conversation_id),
            conversation matches Some(conversation) ==> conversation@ == self@[conversation_id],
    {
        self.conversations.get(&conversation_id)
    }
}

/// The run id of a conversation, if the history has one.
pub open spec fn run_id_of(
    history: HistoryView,
    conversation_id: AIConversationId,
) -> Option<Seq<char>> {
    if history.contains_key(conversation_id) {
        history[conversation_id].run_id
    } else {
        None
    }
}

/// The run id of a conversation, or nothing written out.
pub open spec fn run_id_or_blank(
    history: HistoryView,
    conversation_id: AIConversationId,
) -> Seq<char> {
    match run_id_of(history, conversation_id) {
        Some(run_id) => run_id,
        None => Seq::empty(),
    }
}

/// Whether the history knows a conversation to have the child role.
pub open spec fn has_child_role(history: HistoryView, conversation_id: AIConversationId) -> bool {
    history.contains_key(conversation_id) && history[conversation_id].is_child()
}

/// Whether the history knows a conversation to be a passive view of a run
/// hosted elsewhere.
pub open spec fn is_passive(history: HistoryView, conversation_id: AIConversationId) -> bool {
    history.contains_key(conversation_id) && history[conversation_id].is_remote_view()
}

/// A change of the history.
pub enum BlocklistAIHistoryEvent {
    ConversationServerTokenAssigned { conversation_id: AIConversationId },
    UpdatedStreamingExchange {
        conversation_id: AIConversationId,
        exchange_id: AIAgentExchangeId,
    },
    RemoveConversation { conversation_id: AIConversationId },
    DeletedConversation { conversation_id: AIConversationId },
    RestoredConversations { conversation_ids: Vec<AIConversationId> },
    StartedNewConversation,
    CreatedSubtask,
    UpgradedTask,
    AppendedExchange,
    ReassignedExchange,
    SetActiveConversation,
    ClearedActiveConversation,
    ClearedConversationsInTerminalView,
    UpdatedTodoList,
    UpdatedAutoexecuteOverride,
    SplitConversation,
    UpdatedConversationStatus,
    UpdatedConversationMetadata,
    UpdatedConversationArtifacts,
}

/// A task of the server, as far as the streamer reads it.
pub struct AmbientAgentTask {
    /// The event sequence that the server holds for the task's run.
    pub last_event_sequence: Option<i64>,
    /// The run ids of the task's direct children.
    pub children: Vec<String>,
}

/// What an [`AmbientAgentTask`] says.
pub struct AmbientAgentTaskView {
    pub last_event_sequence: Option<i64>,
    pub children: Set<Seq<char>>,
}

impl View for AmbientAgentTask {
    type V = AmbientAgentTaskView;

    open spec fn view(&self) -> AmbientAgentTaskView {
        AmbientAgentTaskView {
            last_event_sequence: self.last_event_sequence,
            children: texts(self.children@).to_set(),
        }
    }
}

} // verus!
