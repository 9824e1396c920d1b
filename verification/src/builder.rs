//! A builder that collects what the components of the pipeline are made
//! from. The type of the builder records which parts have been given, so
//! that a component can only be made from a builder that has all its parts.

use vstd::prelude::*;

verus! {

/// The address of the source chain.
#[derive(Debug)]
pub struct SourceChain(pub String);

/// No address of the source chain has been given.
#[derive(Debug)]
pub struct NoSourceChain;

/// The path of the database.
#[derive(Debug)]
pub struct DbPath(pub String);

/// No path of the database has been given.
#[derive(Debug)]
pub struct NoDbPath;

/// The sending end of the queue into the store.
#[derive(Debug)]
pub struct DbSender<S>(pub S);

/// No sending end of the queue into the store has been given.
#[derive(Debug)]
pub struct NoDbSender;

/// The receiving end of the queue into the store.
#[derive(Debug)]
pub struct DbReceiver<R>(pub R);

/// No receiving end of the queue into the store has been given.
#[derive(Debug)]
pub struct NoDbReceiver;

/// The sending end of the queue into the reassembler.
#[derive(Debug)]
pub struct HandlerSender<S>(pub S);

/// No sending end of the queue into the reassembler has been given.
#[derive(Debug)]
pub struct NoHandlerSender;

/// The receiving end of the queue into the reassembler.
#[derive(Debug)]
pub struct HandlerReceiver<R>(pub R);

/// No receiving end of the queue into the reassembler has been given.
#[derive(Debug)]
pub struct NoHandlerReceiver;

/// The parts gathered so far.
#[derive(Debug)]
pub struct Builder<ChainUrl, DBPath, DBSender, DBReceiver, RouterSender, RouterReceiver> {
    pub chain_url: ChainUrl,
    pub db_path: DBPath,
    pub db_sender: DBSender,
    pub db_receiver: DBReceiver,
    pub router_sender: RouterSender,
    pub router_receiver: RouterReceiver,
}

impl Default for Builder<
    NoSourceChain,
    NoDbPath,
    NoDbSender,
    NoDbReceiver,
    NoHandlerSender,
    NoHandlerReceiver,
> {
    fn default() -> (r: Self)
        ensures
            r.chain_url == NoSourceChain,
            r.db_path == NoDbPath,
            r.db_sender == NoDbSender,
            r.db_receiver == NoDbReceiver,
            r.router_sender == NoHandlerSender,
            r.router_receiver == NoHandlerReceiver,
    {
        Builder {
            chain_url: NoSourceChain,
            db_path: NoDbPath,
            db_sender: NoDbSender,
            db_receiver: NoDbReceiver,
            router_sender: NoHandlerSender,
            router_receiver: NoHandlerReceiver,
        }
    }
}

impl<ChainUrl, DBPath, DBSender, DBReceiver, RouterSender, RouterReceiver> Builder<
    ChainUrl,
    DBPath,
    DBSender,
    DBReceiver,
    RouterSender,
    RouterReceiver,
> {
    /// The builder with the address of the source chain set to `chain_url`
    /// and every other part as it was.
    pub fn chain_url(self, chain_url: String) -> (r: Builder<
        SourceChain,
        DBPath,
        DBSender,
        DBReceiver,
        RouterSender,
        RouterReceiver,
    >)
        ensures
            r.chain_url.0 == chain_url,
            r.db_path == self.db_path,
            r.db_sender == self.db_sender,
            r.db_receiver == self.db_receiver,
            r.router_sender == self.router_sender,
            r.router_receiver == self.router_receiver,
    {
        Builder {
            chain_url: SourceChain(chain_url),
            db_path: self.db_path,
            db_sender: self.db_sender,
            db_receiver: self.db_receiver,
            router_sender: self.router_sender,
            router_receiver: self.router_receiver,
        }
    }

    /// The builder with the path of the database set to `db_path` and every
    /// other part as it was.
    pub fn db_path(self, db_path: String) -> (r: Builder<
        ChainUrl,
        DbPath,
        DBSender,
        DBReceiver,
        RouterSender,
        RouterReceiver,
    >)
        ensures
            r.chain_url == self.chain_url,
            r.db_path.0 == db_path,
            r.db_sender == self.db_sender,
            r.db_receiver == self.db_receiver,
            r.router_sender == self.router_sender,
            r.router_receiver == self.router_receiver,
    {
        Builder {
            chain_url: self.chain_url,
            db_path: DbPath(db_path),
            db_sender: self.db_sender,
            db_receiver: self.db_receiver,
            router_sender: self.router_sender,
            router_receiver: self.router_receiver,
        }
    }

    /// The builder with the sending end of the store's queue set to
    /// `db_sender` and every other part as it was.
    pub fn db_sender<S>(self, db_sender: S) -> (r: Builder<
        ChainUrl,
        DBPath,
        DbSender<S>,
        DBReceiver,
        RouterSender,
        RouterReceiver,
    >)
        ensures
            r.chain_url == self.chain_url,
            r.db_path == self.db_path,
            r.db_sender.0 == db_sender,
            r.db_receiver == self.db_receiver,
            r.router_sender == self.router_sender,
            r.router_receiver == self.router_receiver,
    {
        Builder {
            chain_url: self.chain_url,
            db_path: self.db_path,
            db_sender: DbSender(db_sender),
            db_receiver: self.db_receiver,
            router_sender: self.router_sender,
            router_receiver: self.router_receiver,
        }
    }

    /// The builder with the receiving end of the store's queue set to
    /// `db_receiver` and every other part as it was.
    pub fn db_receiver<R>(self, db_receiver: R) -> (r: Builder<
        ChainUrl,
        DBPath,
        DBSender,
        DbReceiver<R>,
        RouterSender,
        RouterReceiver,
    >)
        ensures
            r.chain_url == self.chain_url,
            r.db_path == self.db_path,
            r.db_sender == self.db_sender,
            r.db_receiver.0 == db_receiver,
            r.router_sender == self.router_sender,
            r.router_receiver == self.router_receiver,
    {
        Builder {
            chain_url: self.chain_url,
            db_path: self.db_path,
            db_sender: self.db_sender,
            db_receiver: DbReceiver(db_receiver),
            router_sender: self.router_sender,
            router_receiver: self.router_receiver,
        }
    }

    /// The builder with the sending end of the reassembler's queue set to
    /// `router_sender` and every other part as it was.
    pub fn router_sender<S>(self, router_sender: S) -> (r: Builder<
        ChainUrl,
        DBPath,
        DBSender,
        DBReceiver,
        HandlerSender<S>,
        RouterReceiver,
    >)
        ensures
            r.chain_url == self.chain_url,
            r.db_path == self.db_path,
            r.db_sender == self.db_sender,
            r.db_receiver == self.db_receiver,
            r.router_sender.0 == router_sender,
            r.router_receiver == self.router_receiver,
    {
        Builder {
            chain_url: self.chain_url,
            db_path: self.db_path,
            db_sender: self.db_sender,
            db_receiver: self.db_receiver,
            router_sender: HandlerSender(router_sender),
            router_receiver: self.router_receiver,
        }
    }

    /// The builder with the receiving end of the reassembler's queue set to
    /// `router_receiver` and every other part as it was.
    pub fn router_receiver<R>(self, router_receiver: R) -> (r: Builder<
        ChainUrl,
        DBPath,
        DBSender,
        DBReceiver,
        RouterSender,
        HandlerReceiver<R>,
    >)
        ensures
            r.chain_url == self.chain_url,
            r.db_path == self.db_path,
            r.db_sender == self.db_sender,
            r.db_receiver == self.db_receiver,
            r.router_sender == self.router_sender,
            r.router_receiver.0 == router_receiver,
    {
        Builder {
            chain_url: self.chain_url,
            db_path: self.db_path,
            db_sender: self.db_sender,
            db_receiver: self.db_receiver,
            router_sender: self.router_sender,
            router_receiver: HandlerReceiver(router_receiver),
        }
    }
}

} // verus!
