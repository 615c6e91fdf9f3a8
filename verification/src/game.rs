//! The supported game clients and where each keeps its log.

use vstd::prelude::*;

verus! {

/// A game client: one regional build of one title.
#[derive(Debug, Clone, Copy, PartialEq, Eq, Hash, Structural)]
pub enum GameType {
    Hk4eCN,
    Hk4eGlobal,
    HkrpgCN,
    HkrpgGlobal,
    NapCN,
    NapGlobal,
}

impl GameType {
    /// The client's log file, relative to the per-user application-data
    /// root.
    pub open spec fn spec_log_path(self) -> Seq<char> {
        match self {
            GameType::Hk4eCN => "miHoYo/原神/output_log.txt"@,
            GameType::Hk4eGlobal => "miHoYo/Genshin Impact/output_log.txt"@,
            GameType::HkrpgCN => "miHoYo/崩坏：星穹铁道/Player.log"@,
            GameType::HkrpgGlobal => "miHoYo/Cognosphere/Star Rail/Player.log"@,
            GameType::NapCN => "miHoYo/绝区零/Player.log"@,
            GameType::NapGlobal => "miHoYo/ZenlessZoneZero/Player.log"@,
        }
    }

    /// The client's log file, relative to the per-user application-data
    /// root.
    pub fn log_path(self) -> (path: &'static str)
        ensures
            path@ == self.spec_log_path(),
    {
        match self {
            GameType::Hk4eCN => "miHoYo/原神/output_log.txt",
            GameType::Hk4eGlobal => "miHoYo/Genshin Impact/output_log.txt",
            GameType::HkrpgCN => "miHoYo/崩坏：星穹铁道/Player.log",
            GameType::HkrpgGlobal => "miHoYo/Cognosphere/Star Rail/Player.log",
            GameType::NapCN => "miHoYo/绝区零/Player.log",
            GameType::NapGlobal => "miHoYo/ZenlessZoneZero/Player.log",
        }
    }
}

/// The name under which a client is offered for choice.
pub open spec fn title_of(game: GameType) -> Seq<char> {
    match game {
        GameType::Hk4eCN => "原神"@,
        GameType::Hk4eGlobal => "Genshin Impact"@,
        GameType::HkrpgCN => "崩坏：星穹铁道"@,
        GameType::HkrpgGlobal => "Honkai: Star Rail"@,
        GameType::NapCN => "绝区零"@,
        GameType::NapGlobal => "Zenless Zone Zero"@,
    }
}

/// The place of a client in the list of clients.
pub open spec fn index_of(game: GameType) -> int {
    match game {
        GameType::Hk4eCN => 0,
        GameType::Hk4eGlobal => 1,
        GameType::HkrpgCN => 2,
        GameType::HkrpgGlobal => 3,
        GameType::NapCN => 4,
        GameType::NapGlobal => 5,
    }
}

impl GameType {
    /// The name under which the client is offered for choice.
    pub fn title(self) -> (title: &'static str)
        ensures
            title@ == title_of(self),
    {
        match self {
            GameType::Hk4eCN => "原神",
            GameType::Hk4eGlobal => "Genshin Impact",
            GameType::HkrpgCN => "崩坏：星穹铁道",
            GameType::HkrpgGlobal => "Honkai: Star Rail",
            GameType::NapCN => "绝区零",
            GameType::NapGlobal => "Zenless Zone Zero",
        }
    }

    /// The place of the client in the list of clients.
    pub fn index(self) -> (index: u32)
        ensures
            index == index_of(self),
    {
        match self {
            GameType::Hk4eCN => 0,
            GameType::Hk4eGlobal => 1,
            GameType::HkrpgCN => 2,
            GameType::HkrpgGlobal => 3,
            GameType::NapCN => 4,
            GameType::NapGlobal => 5,
        }
    }

    /// The client at place `index` of the list. `None` past the end of the
    /// list.
    pub fn from_index(index: u32) -> (game: Option<GameType>)
        ensures
            match game {
                Some(g) => index_of(g) == index,
                None => index >= 6,
            },
    {
        if index == 0 {
            Some(GameType::Hk4eCN)
        } else if index == 1 {
            Some(GameType::Hk4eGlobal)
        } else if index == 2 {
            Some(GameType::HkrpgCN)
        } else if index == 3 {
            Some(GameType::HkrpgGlobal)
        } else if index == 4 {
            Some(GameType::NapCN)
        } else if index == 5 {
            Some(GameType::NapGlobal)
        } else {
            None
        }
    }

    /// The client that is offered under `title`. `None` where none is.
    pub fn from_title(title: &str) -> (game: Option<GameType>)
        ensures
            match game {
                Some(g) => title_of(g) == title@,
                None => forall|g: GameType| title_of(g) != title@,
            },
    {
        let title = title.to_owned();
        if title == GameType::Hk4eCN.title().to_owned() {
            Some(GameType::Hk4eCN)
        } else if title == GameType::Hk4eGlobal.title().to_owned() {
            Some(GameType::Hk4eGlobal)
        } else if title == GameType::HkrpgCN.title().to_owned() {
            Some(GameType::HkrpgCN)
        } else if title == GameType::HkrpgGlobal.title().to_owned() {
            Some(GameType::HkrpgGlobal)
        } else if title == GameType::NapCN.title().to_owned() {
            Some(GameType::NapCN)
        } else if title == GameType::NapGlobal.title().to_owned() {
            Some(GameType::NapGlobal)
        } else {
            None
        }
    }
}

/// No two clients share a log file.
pub proof fn lemma_log_paths_distinct(a: GameType, b: GameType)
    requires
        a != b,
    ensures
        a.spec_log_path() != b.spec_log_path(),
{
    reveal_strlit("miHoYo/原神/output_log.txt");
    reveal_strlit("miHoYo/Genshin Impact/output_log.txt");
    reveal_strlit("miHoYo/崩坏：星穹铁道/Player.log");
    reveal_strlit("miHoYo/Cognosphere/Star Rail/Player.log");
    reveal_strlit("miHoYo/绝区零/Player.log");
    reveal_strlit("miHoYo/ZenlessZoneZero/Player.log");
    assert(a.spec_log_path().len() != b.spec_log_path().len());
}

/// No two clients share a title or a place in the list.
pub proof fn lemma_titles_distinct(a: GameType, b: GameType)
    requires
        a != b,
    ensures
        title_of(a) != title_of(b),
        index_of(a) != index_of(b),
{
    reveal_strlit("原神");
    reveal_strlit("Genshin Impact");
    reveal_strlit("崩坏：星穹铁道");
    reveal_strlit("Honkai: Star Rail");
    reveal_strlit("绝区零");
    reveal_strlit("Zenless Zone Zero");
    if title_of(a).len() == title_of(b).len() {
        assert(title_of(a)[0] != title_of(b)[0]);
    }
}

} // verus!
