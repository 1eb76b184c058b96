//! gitview: a commit history drawn as a graph, the state of many repositories at a glance,
//! and the operations that bring a branch and its remote together.
//!
//! The library computes. It takes what was read of a repository as plain data and gives
//! back what to show, or which request to make of the repository next; reading, writing
//! and talking to remotes is left to the application around it.
//!
//! - The history: [`repo`] and [`dag`] hold it, [`order`] and [`layout`] place it on a grid.
//! - The state of a repository: [`status`], [`divergence`], [`workspace`], [`conflict`].
//! - Differences: [`compare`], [`patch`], [`diff`] and [`intraline`]; [`selection`] applies
//!   parts of them.
//! - Operations: [`operation`] is the language in which they are carried out, [`ops`],
//!   [`workspace`], [`conflict`] and [`selection`] decide what each of them does.
//! - Remotes: [`fetch`] and [`watcher`].
//! - Looking back: [`search`].
//! - What is shown: [`dto`], [`service`] and [`state`] for the interface, [`cli`] and
//!   [`report`] for the command line.
//!
//! Properties that span several functions are stated as proof functions in the modules
//! whose names end in `_laws`, in [`reading_order`], and next to what they are about.

pub mod cli;
pub mod compare;
pub mod conflict;
pub mod conflict_laws;
pub mod dag;
pub mod diff;
pub mod diff_laws;
pub mod divergence;
pub mod divergence_laws;
pub mod dto;
pub mod dto_laws;
pub mod fetch;
pub mod fetch_laws;
pub mod git;
pub mod graph_laws;
pub mod intraline;
pub mod layout;
pub mod layout_laws;
pub mod matching;
pub mod message_laws;
pub mod operation;
pub mod operation_laws;
pub mod ops;
pub mod order;
pub mod order_laws;
pub mod patch;
pub mod pathset;
pub mod print_laws;
pub mod reading_order;
pub mod repo;
pub mod report;
pub mod run_laws;
pub mod safety_laws;
pub mod search;
pub mod search_laws;
pub mod selection;
pub mod selection_laws;
pub mod service;
pub mod service_laws;
pub mod settings;
pub mod sorting;
pub mod state;
pub mod status;
pub mod status_laws;
pub mod sync_laws;
pub mod text;
pub mod text_laws;
pub mod view_laws;
pub mod watch_laws;
pub mod watcher;
pub mod workspace;
pub mod workspace_laws;

pub use dag::{Commit, CommitGraph, CommitGraphBuilder, NodeIndex};
pub use divergence::{analyse, ConflictRisk, Divergence, Recommendation};
pub use fetch::{default_remote, fetch, FetchFailure, FetchReport};
pub use layout::{assign_lanes, lay_out, topo_time_order, Edge, Layout, LayoutError};
pub use repo::{load_graph, ref_labels, summarize, RepoSummary};
pub use status::{status, Attention, RepoStatus, WorkingTree};
