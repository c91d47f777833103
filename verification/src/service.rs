//! What the dungeon service answers, once the database has been asked.

use vstd::prelude::*;
use vstd::string::StringExecFns;

verus! {

/// Whether a part of the service is well.
#[derive(Debug, Clone, Copy, PartialEq, Eq, Structural)]
pub enum Status {
    Up,
    Down,
}

/// The health of the service and of the database behind it.
#[derive(Debug, Clone, Copy, PartialEq, Eq, Structural)]
pub struct Health {
    pub server: Status,
    pub redis: Status,
}

/// The health report after the database was pinged: `reply` is what it
/// answered, if it answered. The database is well where the answer is
/// `PONG`; the server, which is the one that reports, is well.
pub fn health(reply: Option<String>) -> (report: Health)
    ensures
        report.server == Status::Up,
        report.redis == if reply matches Some(text) && text@ == "PONG"@ {
            Status::Up
        } else {
            Status::Down
        },
{
    let redis = match reply {
        Some(text) => {
            if text == String::from_str("PONG") {
                Status::Up
            } else {
                Status::Down
            }
        },
        None => Status::Down,
    };
    Health { server: Status::Up, redis }
}

/// The way to the largest treasure.
#[derive(Debug, PartialEq, Eq)]
pub struct Crawl {
    /// The shortest path to the largest treasure in the dungeon.
    pub path: String,
    /// Total gp collected along the path.
    pub gp: u32,
}

impl Default for Crawl {
    fn default() -> (crawl: Self)
        ensures
            crawl.path@ == Seq::<char>::empty(),
            crawl.gp == 0,
    {
        Crawl { path: String::new(), gp: 0 }
    }
}

/// The answer to a crawl.
#[derive(Debug, PartialEq, Eq)]
pub enum CrawlReply {
    /// The path that was found.
    Found(Crawl),
    /// No path leads from the entrance to the largest treasure.
    NotFound(Crawl),
    /// The database failed, in these words.
    Failed(String),
}

pub const STATUS_OK: u16 = 200;

pub const STATUS_CREATED: u16 = 201;

pub const STATUS_BAD_REQUEST: u16 = 400;

pub const STATUS_NOT_FOUND: u16 = 404;

pub const STATUS_INTERNAL_SERVER_ERROR: u16 = 500;

impl CrawlReply {
    /// The HTTP status that goes with the answer.
    pub fn status(&self) -> (code: u16)
        ensures
            code == match self {
                CrawlReply::Found(_) => STATUS_OK,
                CrawlReply::NotFound(_) => STATUS_NOT_FOUND,
                CrawlReply::Failed(_) => STATUS_INTERNAL_SERVER_ERROR,
            },
    {
        match self {
            CrawlReply::Found(_) => STATUS_OK,
            CrawlReply::NotFound(_) => STATUS_NOT_FOUND,
            CrawlReply::Failed(_) => STATUS_INTERNAL_SERVER_ERROR,
        }
    }
}

/// The answer to a crawl, from what the database gave: the path of the
/// first match, if there was one, or the words of its failure. The gold on
/// the way is not counted yet, so a path that was found is reported with
/// none.
pub fn crawl_reply(found: Result<Option<String>, String>) -> (reply: CrawlReply)
    ensures
        match found {
            Ok(Some(path)) => reply == CrawlReply::Found(Crawl { path, gp: 0 }),
            Ok(None) => reply matches CrawlReply::NotFound(crawl) && crawl.path@ == Seq::<
                char,
            >::empty() && crawl.gp == 0,
            Err(words) => reply == CrawlReply::Failed(words),
        },
{
    match found {
        Ok(Some(path)) => CrawlReply::Found(Crawl { path, gp: 0 }),
        Ok(None) => CrawlReply::NotFound(Crawl::default()),
        Err(words) => CrawlReply::Failed(words),
    }
}

} // verus!
