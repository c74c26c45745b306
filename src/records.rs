//! Plain values that describe a match to the rest of an application.

use vstd::prelude::*;

verus! {

/// Which of the two games is played.
#[derive(Debug, Clone, Copy, Hash, PartialEq, Eq, Structural)]
pub enum GameType {
    Connect4,
    OttoToot,
}

/// Difficulty chosen for the computer opponent.
#[derive(Debug, Clone, Copy, Hash, PartialEq, Eq, Structural)]
pub enum CpuLevel {
    Easy,
    Medium,
    Hard,
}

/// Outcome of a finished match, seen from the human player.
#[derive(Debug, Clone, Copy, Hash, PartialEq, Eq, Structural)]
pub enum MatchResult {
    Win,
    Tie,
    Loss,
}

/// Order in which match records are listed.
#[derive(Debug, Clone, Copy, Hash, PartialEq, Eq, Structural)]
pub enum MatchQuerySortBy {
    StartTime,
    Duration,
}

/// Filters on listed match records: a record passes when its result, game
/// and level are among those given.
#[derive(Debug, PartialEq, Eq, Hash)]
pub struct MatchQueryFilter {
    pub result: Vec<MatchResult>,
    pub game: Vec<GameType>,
    pub level: Vec<CpuLevel>,
}

/// Session token of a signed-in user.
#[derive(Debug)]
pub struct UserAuthToken(String);

impl UserAuthToken {
    pub closed spec fn text(self) -> Seq<char> {
        self.0@
    }

    pub fn new(token: String) -> (r: Self)
        ensures
            r.text() == token@,
    {
        UserAuthToken(token)
    }

    /// The token text.
    pub fn into_inner(self) -> (r: String)
        ensures
            r@ == self.text(),
    {
        self.0
    }

    /// The token text.
    pub fn unwrap_token(self) -> (r: String)
        ensures
            r@ == self.text(),
    {
        self.0
    }
}

/// What a client reports of a finished match.
#[derive(Debug, Clone, Copy)]
pub struct ClientMatchData {
    pub game_id: GameType,
    pub cpu_level: CpuLevel,
    pub duration: i32,
    pub result: MatchResult,
}

/// One page of a listing: the items, where the page starts, and how many
/// items there are in all.
#[derive(Debug, PartialEq, Eq, Hash)]
pub struct Records<T> {
    pub records: Vec<T>,
    pub offset: i64,
    pub total_count: i64,
}

/// Credentials sent to sign in or register.
#[derive(Debug, PartialEq, Eq, Hash)]
pub struct UserAuthForm {
    pub user_id: String,
    pub password: String,
}

/// What the server reports of a user.
#[derive(Debug, Clone, PartialEq)]
pub struct UserInfo {
    pub user_id: String,
}

} // verus!
