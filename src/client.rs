use vstd::prelude::*;

verus! {

/// The connection state of one source: a session, or none.
pub enum Node<S> {
    Connected { session: S, uri: String },
    Disconnected { uri: String },
}

impl<S> Node<S> {
    /// The endpoint address, kept in both states.
    pub open spec fn spec_uri(&self) -> String {
        match self {
            Node::Connected { uri, .. } => *uri,
            Node::Disconnected { uri } => *uri,
        }
    }

    pub open spec fn is_connected(&self) -> bool {
        self is Connected
    }

    /// The endpoint address of this source.
    pub fn uri(&self) -> (r: &String)
        ensures
            *r == self.spec_uri(),
    {
        match self {
            Node::Connected { uri, .. } => uri,
            Node::Disconnected { uri } => uri,
        }
    }
}

/// A handle on one source, connected lazily and disconnected on failure.
pub struct Client<S> {
    inner: Node<S>,
}

impl<S> View for Client<S> {
    type V = Node<S>;

    closed spec fn view(&self) -> Node<S> {
        self.inner
    }
}

impl<S> Client<S> {
    /// A disconnected handle for the given endpoint.
    pub fn new(uri: String) -> (r: Client<S>)
        ensures
            r@ == (Node::<S>::Disconnected { uri }),
    {
        Client { inner: Node::Disconnected { uri } }
    }

    /// The endpoint address of this handle.
    pub fn uri(&self) -> (r: String)
        ensures
            r@ == self@.spec_uri()@,
    {
        self.inner.uri().clone()
    }

    /// Whether the handle holds a session.
    pub fn is_connected(&self) -> (r: bool)
        ensures
            r == self@.is_connected(),
    {
        match &self.inner {
            Node::Connected { .. } => true,
            Node::Disconnected { .. } => false,
        }
    }

    /// The current session, if connected; never dials.
    pub fn get(&self) -> (r: Option<S>) where S: Clone
        ensures
            r is Some <==> self@.is_connected(),
            r is Some ==> vstd::pervasive::cloned(self@->Connected_session, r->0),
    {
        match &self.inner {
            Node::Connected { session, .. } => Some(session.clone()),
            Node::Disconnected { .. } => None,
        }
    }

    /// Record a session that was opened against this handle's endpoint.
    pub fn connected(&mut self, session: S)
        ensures
            final(self)@ == (Node::Connected { session, uri: old(self)@.spec_uri() }),
    {
        let uri = self.take_uri();
        self.inner = Node::Connected { session, uri };
    }

    /// Drop the session, if any, so that the next use dials again.
    pub fn disconnect(&mut self)
        ensures
            final(self)@ == (Node::<S>::Disconnected { uri: old(self)@.spec_uri() }),
    {
        let uri = self.take_uri();
        self.inner = Node::Disconnected { uri };
    }

    /// Move the endpoint address out, leaving the handle disconnected from an
    /// empty address until the caller restores it.
    fn take_uri(&mut self) -> (r: String)
        ensures
            r == old(self)@.spec_uri(),
    {
        let mut prev = Node::Disconnected { uri: String::new() };
        std::mem::swap(&mut self.inner, &mut prev);
        match prev {
            Node::Connected { uri, .. } => uri,
            Node::Disconnected { uri } => uri,
        }
    }
}

} // verus!
