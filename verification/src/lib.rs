//! Controller for LocalSend transfers.
pub mod acceptance;
pub mod client;
pub mod clock;
pub mod conduct;
pub mod contact;
pub mod controller;
pub mod destination;
pub mod devices;
pub mod edges;
pub mod events;
pub mod filemap;
pub mod files;
pub mod identity;
pub mod ids;
pub mod laws;
pub mod management;
pub mod model;
pub mod naming;
pub mod offer;
pub mod order;
pub mod outgoing;
pub mod paths;
pub mod records;
pub mod rpc;
pub mod selection;
pub mod sending;
pub mod startup;
pub mod state;
pub mod storage;
pub mod tally;
pub mod terms;
pub mod text;
pub mod textset;
pub mod transfer;
pub mod walk;
