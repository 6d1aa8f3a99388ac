//! Failures of the registries and the statuses they are reported with.

use vstd::prelude::*;

verus! {

/// The status that a failed request reports to its caller.
#[derive(Debug, Clone, Copy, PartialEq, Eq, Structural)]
pub enum ErrorKind {
    InvalidArgument,
    AlreadyExists,
    NotFound,
    FailedPrecondition,
    Internal,
}

/// The role a node plays on a topic.
#[derive(Debug, Clone, Copy, PartialEq, Eq, Structural)]
pub enum PubOrSub {
    Publisher,
    Subscriber,
}

impl PubOrSub {
    /// The role's name, as it reads in a message.
    pub fn label(&self) -> (r: &'static str)
        ensures
            r@ == (match self {
                PubOrSub::Publisher => "Publisher"@,
                PubOrSub::Subscriber => "Subscriber"@,
            }),
    {
        match self {
            PubOrSub::Publisher => "Publisher",
            PubOrSub::Subscriber => "Subscriber",
        }
    }
}

/// Failures of the node registry.
#[derive(Debug, Clone, PartialEq, Eq)]
pub enum NodeManagerError {
    /// No node of that name is registered.
    NodeDoesNotExist(String),
    /// A node of that name is registered already.
    NodeAlreadyExists(String),
    /// A node name must not be empty.
    EmptyName,
    /// No unused socket address could be drawn.
    AddressUnavailable,
}

impl NodeManagerError {
    pub open spec fn spec_kind(&self) -> ErrorKind {
        match self {
            NodeManagerError::NodeDoesNotExist(_) => ErrorKind::FailedPrecondition,
            NodeManagerError::NodeAlreadyExists(_) => ErrorKind::AlreadyExists,
            NodeManagerError::EmptyName => ErrorKind::InvalidArgument,
            NodeManagerError::AddressUnavailable => ErrorKind::Internal,
        }
    }

    /// The status reported for this failure.
    pub fn kind(&self) -> (r: ErrorKind)
        ensures
            r == self.spec_kind(),
    {
        match self {
            NodeManagerError::NodeDoesNotExist(_) => ErrorKind::FailedPrecondition,
            NodeManagerError::NodeAlreadyExists(_) => ErrorKind::AlreadyExists,
            NodeManagerError::EmptyName => ErrorKind::InvalidArgument,
            NodeManagerError::AddressUnavailable => ErrorKind::Internal,
        }
    }
}

/// Failures of the topic registry.
#[derive(Debug, Clone, PartialEq, Eq)]
pub enum TopicManagerError {
    /// The node already holds that role on the topic.
    NodeAlreadyExists { node: String, topic: String, pubsub: PubOrSub },
    /// The node does not hold that role on the topic.
    NodeDoesntExist { node: String, topic: String, pubsub: PubOrSub },
    /// The topic exists with another message type.
    TopicTypeDoesNotMatch { topic_name: String, requested_type: String, real_type: String },
    /// No topic of that name exists.
    TopicDoesNotExist(String),
    /// A topic name must not be empty.
    EmptyTopicName,
    /// A channel was asked for from a node that does not publish on the topic.
    NotPublishing { publisher: String, topic_name: String },
    /// A channel was asked for to a node that does not subscribe to the topic.
    NotSubscribed { subscriber: String, topic_name: String },
    /// The channel between the two nodes exists already.
    ChannelAlreadyExists { publisher: String, subscriber: String, topic_name: String },
    /// There is no channel between the two nodes on the topic.
    ChannelDoesNotExist { publisher: String, subscriber: String, topic_name: String },
}

impl TopicManagerError {
    pub open spec fn spec_kind(&self) -> ErrorKind {
        match self {
            TopicManagerError::NodeAlreadyExists { .. } => ErrorKind::AlreadyExists,
            TopicManagerError::NodeDoesntExist { .. } => ErrorKind::NotFound,
            TopicManagerError::TopicTypeDoesNotMatch { .. } => ErrorKind::FailedPrecondition,
            TopicManagerError::TopicDoesNotExist(_) => ErrorKind::NotFound,
            TopicManagerError::EmptyTopicName => ErrorKind::InvalidArgument,
            TopicManagerError::NotPublishing { .. } => ErrorKind::FailedPrecondition,
            TopicManagerError::NotSubscribed { .. } => ErrorKind::FailedPrecondition,
            TopicManagerError::ChannelAlreadyExists { .. } => ErrorKind::AlreadyExists,
            TopicManagerError::ChannelDoesNotExist { .. } => ErrorKind::NotFound,
        }
    }

    /// The status reported for this failure.
    pub fn kind(&self) -> (r: ErrorKind)
        ensures
            r == self.spec_kind(),
    {
        match self {
            TopicManagerError::NodeAlreadyExists { .. } => ErrorKind::AlreadyExists,
            TopicManagerError::NodeDoesntExist { .. } => ErrorKind::NotFound,
            TopicManagerError::TopicTypeDoesNotMatch { .. } => ErrorKind::FailedPrecondition,
            TopicManagerError::TopicDoesNotExist(_) => ErrorKind::NotFound,
            TopicManagerError::EmptyTopicName => ErrorKind::InvalidArgument,
            TopicManagerError::NotPublishing { .. } => ErrorKind::FailedPrecondition,
            TopicManagerError::NotSubscribed { .. } => ErrorKind::FailedPrecondition,
            TopicManagerError::ChannelAlreadyExists { .. } => ErrorKind::AlreadyExists,
            TopicManagerError::ChannelDoesNotExist { .. } => ErrorKind::NotFound,
        }
    }
}

/// What a topic registry failure says, over plain sequences.
pub enum TopicErrorView {
    NodeAlreadyExists { node: Seq<char>, topic: Seq<char>, pubsub: PubOrSub },
    NodeDoesntExist { node: Seq<char>, topic: Seq<char>, pubsub: PubOrSub },
    TopicTypeDoesNotMatch { topic_name: Seq<char>, requested_type: Seq<char>, real_type: Seq<char> },
    TopicDoesNotExist(Seq<char>),
    EmptyTopicName,
    NotPublishing { publisher: Seq<char>, topic_name: Seq<char> },
    NotSubscribed { subscriber: Seq<char>, topic_name: Seq<char> },
    ChannelAlreadyExists { publisher: Seq<char>, subscriber: Seq<char>, topic_name: Seq<char> },
    ChannelDoesNotExist { publisher: Seq<char>, subscriber: Seq<char>, topic_name: Seq<char> },
}

impl View for TopicManagerError {
    type V = TopicErrorView;

    open spec fn view(&self) -> TopicErrorView {
        match self {
            TopicManagerError::NodeAlreadyExists { node, topic, pubsub } =>
                TopicErrorView::NodeAlreadyExists { node: node@, topic: topic@, pubsub: *pubsub },
            TopicManagerError::NodeDoesntExist { node, topic, pubsub } =>
                TopicErrorView::NodeDoesntExist { node: node@, topic: topic@, pubsub: *pubsub },
            TopicManagerError::TopicTypeDoesNotMatch { topic_name, requested_type, real_type } =>
                TopicErrorView::TopicTypeDoesNotMatch {
                topic_name: topic_name@,
                requested_type: requested_type@,
                real_type: real_type@,
            },
            TopicManagerError::TopicDoesNotExist(t) => TopicErrorView::TopicDoesNotExist(t@),
            TopicManagerError::EmptyTopicName => TopicErrorView::EmptyTopicName,
            TopicManagerError::NotPublishing { publisher, topic_name } =>
                TopicErrorView::NotPublishing { publisher: publisher@, topic_name: topic_name@ },
            TopicManagerError::NotSubscribed { subscriber, topic_name } =>
                TopicErrorView::NotSubscribed { subscriber: subscriber@, topic_name: topic_name@ },
            TopicManagerError::ChannelAlreadyExists { publisher, subscriber, topic_name } =>
                TopicErrorView::ChannelAlreadyExists {
                publisher: publisher@,
                subscriber: subscriber@,
                topic_name: topic_name@,
            },
            TopicManagerError::ChannelDoesNotExist { publisher, subscriber, topic_name } =>
                TopicErrorView::ChannelDoesNotExist {
                publisher: publisher@,
                subscriber: subscriber@,
                topic_name: topic_name@,
            },
        }
    }
}

/// What a node registry failure says, over plain sequences.
pub enum NodeErrorView {
    NodeDoesNotExist(Seq<char>),
    NodeAlreadyExists(Seq<char>),
    EmptyName,
    AddressUnavailable,
}

impl View for NodeManagerError {
    type V = NodeErrorView;

    open spec fn view(&self) -> NodeErrorView {
        match self {
            NodeManagerError::NodeDoesNotExist(n) => NodeErrorView::NodeDoesNotExist(n@),
            NodeManagerError::NodeAlreadyExists(n) => NodeErrorView::NodeAlreadyExists(n@),
            NodeManagerError::EmptyName => NodeErrorView::EmptyName,
            NodeManagerError::AddressUnavailable => NodeErrorView::AddressUnavailable,
        }
    }
}

/// A failed broker request: a failure of one of the two registries.
#[derive(Debug, Clone, PartialEq, Eq)]
pub enum BrokerError {
    Node(NodeManagerError),
    Topic(TopicManagerError),
}

/// What a failed broker request says, over plain sequences.
pub enum BrokerErrorView {
    Node(NodeErrorView),
    Topic(TopicErrorView),
}

impl View for BrokerError {
    type V = BrokerErrorView;

    open spec fn view(&self) -> BrokerErrorView {
        match self {
            BrokerError::Node(e) => BrokerErrorView::Node(e@),
            BrokerError::Topic(e) => BrokerErrorView::Topic(e@),
        }
    }
}

impl BrokerError {
    pub open spec fn spec_kind(&self) -> ErrorKind {
        match self {
            BrokerError::Node(e) => e.spec_kind(),
            BrokerError::Topic(e) => e.spec_kind(),
        }
    }

    /// The status reported for this failure.
    pub fn kind(&self) -> (r: ErrorKind)
        ensures
            r == self.spec_kind(),
    {
        match self {
            BrokerError::Node(e) => e.kind(),
            BrokerError::Topic(e) => e.kind(),
        }
    }
}

} // verus!
