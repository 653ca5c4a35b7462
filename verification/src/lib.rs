//! Core domain of a multi-tenant MUD engine: entity handles and their liveness
//! arena, places and regions, the hot side-tables, the world aggregate and its
//! tick scheduler, the lock DSL, styled text and builder markup, the command
//! model and parser, the account domain, and the pure decisions of the
//! persistence layer.

#[allow(unused_imports)]
use vstd::prelude::*;

pub mod entity;
pub mod arena;
pub mod chars;
pub mod names;
pub mod locks;
pub mod cmd;
pub mod text;
pub mod slug;
pub mod place;
pub mod region;
pub mod side_tables;
pub mod write_model;
pub mod world;
pub mod scheduler;
pub mod account;
pub mod db;

pub use entity::{EntityId, EntityIdError, EntityKey, Generation, SlotIndex, TenantTag};
pub use arena::{ArenaError, EntityArena};
pub use locks::ast::{AccessType, Lock, LockArg, LockFn, ParsedLock, ResolvedExpr, SyntaxExpr};
pub use locks::eval::LockContext;
pub use locks::parser::{parse, ParseError};
pub use locks::resolve::{resolve, ResolveError};
pub use cmd::cmdset::{CmdSet, CmdSetKey, CmdSetKeyError, MergeType, Priority};
pub use cmd::command::{Command, CommandName, CommandNameError, Switch, SwitchError};
pub use cmd::parser::{CommandTable, ParseOutcome};
pub use cmd::trie::{PrefixTrie, TrieMatch};
pub use text::attributes::Attributes;
pub use text::color::{Color, ColorParseError};
pub use text::field::FieldStyle;
pub use text::markup::{compile_markup, CompiledMarkup, MarkupDiagnostic};
pub use text::palette::Palette;
pub use text::span::{Span, StyledText};
pub use text::style::{RoleName, SpanStyle, Style};
pub use place::id::PlaceId;
pub use place::key::{PlaceKey, PlaceKeyError};
pub use place::room::{Description, Direction, Place, RoomData, Title};
pub use region::{RegionId, RegionKey, RegionKeyError};
pub use side_tables::location::LocationOf;
pub use side_tables::inventory::Inventory;
pub use side_tables::naming::{Keyword, Naming};
pub use write_model::{Effect, MutationCommand, Precondition, TickEvent};
pub use world::World;
pub use scheduler::{Scheduler, TICK_HZ, TICK_PERIOD_MS};
pub use account::account::{Account, AccountId, AccountState, LoginError, RegisterError, UnknownAccountState};
pub use account::credential::{Credential, CredentialError};
pub use account::name::{NameError, PuppetName, Username};
pub use account::puppet::Puppet;
pub use db::error::DbError;
pub use db::place_map::PlaceMap;
pub use db::write_plan::{plan_write, KeyMap, RowWrite};
pub use db::login::{decide_login, parse_puppet_name, parse_state, LoginOutcome, StoredAccount};
