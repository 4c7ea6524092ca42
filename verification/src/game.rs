//! The flow of a game session: screens, score, lives, waves, and the
//! entry of initials for a new high score. Each function takes one event of
//! a frame and says what follows; the frame loop, timers, physics and drawing
//! belong to the caller.
use vstd::prelude::*;
use crate::leaderboard::{Leaderboard, keep_top};
use crate::ranking::rank_in;
use crate::combat::Foe;
use crate::sound::Sfx;
use crate::waves::{EnemyKind, spec_score_value};

verus! {

/// The screens of the game.
#[derive(Clone, Copy, PartialEq, Eq, Structural, Debug)]
pub enum Screen {
    Menu,
    Playing,
    GameOver,
    EnterInitials,
    Leaderboard,
    /// Who made the game, reached from the title screen.
    Credits,
}

/// Things that happen in a game and make a sound.
#[derive(Clone, Copy, PartialEq, Eq, Structural, Debug)]
pub enum GameEvent {
    /// The player fired a bullet.
    PlayerFired,
    /// An enemy of this kind died.
    EnemyKilled(EnemyKind),
    /// The player was hit; `game_over` when it was the last life.
    LifeLost { game_over: bool },
    /// A new wave spawned.
    WaveSpawned,
    /// Every enemy of a wave was destroyed.
    WaveCleared,
}

/// The sound effect of an event: grunts die with the small explosion, every
/// other kind with the big one; a hit that leaves lives sounds the hit, the
/// last one the game-over tune.
pub open spec fn spec_effect(e: GameEvent) -> Sfx {
    match e {
        GameEvent::PlayerFired => Sfx::Shoot,
        GameEvent::EnemyKilled(k) => if k == EnemyKind::Grunt {
            Sfx::KillSmall
        } else {
            Sfx::KillBig
        },
        GameEvent::LifeLost { game_over } => if game_over {
            Sfx::GameOver
        } else {
            Sfx::PlayerHit
        },
        GameEvent::WaveSpawned => Sfx::WaveStart,
        GameEvent::WaveCleared => Sfx::WaveClear,
    }
}

impl GameEvent {
    /// The sound effect that this event plays.
    pub fn effect(&self) -> (s: Sfx)
        ensures
            s == spec_effect(*self),
    {
        match self {
            GameEvent::PlayerFired => Sfx::Shoot,
            GameEvent::EnemyKilled(k) => if *k == EnemyKind::Grunt {
                Sfx::KillSmall
            } else {
                Sfx::KillBig
            },
            GameEvent::LifeLost { game_over } => if *game_over {
                Sfx::GameOver
            } else {
                Sfx::PlayerHit
            },
            GameEvent::WaveSpawned => Sfx::WaveStart,
            GameEvent::WaveCleared => Sfx::WaveClear,
        }
    }
}

/// The points of the enemies `kills` (indices into `foes`), summed.
pub open spec fn kill_points(foes: Seq<Foe>, kills: Seq<usize>) -> int
    decreases kills.len(),
{
    if kills.len() == 0 {
        0
    } else {
        kill_points(foes, kills.drop_last()) + spec_score_value(foes[kills.last() as int].kind)
    }
}

/// The points of a prefix of the kills are no more than those of all.
proof fn lemma_kill_points_prefix(foes: Seq<Foe>, kills: Seq<usize>, i: int)
    requires
        0 <= i <= kills.len(),
    ensures
        0 <= kill_points(foes, kills.take(i)) <= kill_points(foes, kills),
    decreases kills.len() - i,
{
    if i < kills.len() {
        lemma_kill_points_prefix(foes, kills.drop_last(), i);
        assert(kills.drop_last().take(i) =~= kills.take(i));
    } else {
        assert(kills.take(i) =~= kills);
        lemma_kill_points_nonneg(foes, kills);
    }
}

proof fn lemma_kill_points_nonneg(foes: Seq<Foe>, kills: Seq<usize>)
    ensures
        kill_points(foes, kills) >= 0,
    decreases kills.len(),
{
    if kills.len() > 0 {
        lemma_kill_points_nonneg(foes, kills.drop_last());
    }
}

/// What the caller has to do after a confirm press.
#[derive(Clone, Copy, PartialEq, Eq, Structural, Debug)]
pub enum ConfirmAction {
    /// Nothing beyond the screen change, if any.
    Nothing,
    /// A new game began: reset the player, clear the arena, arm the first
    /// wave.
    StartGame,
    /// Back on the title screen: restart the attract cycle.
    RestartAttract,
}

/// Lives at the start of a game.
pub const START_LIVES: i32 = 3;

/// Letters of a high-score entry.
pub const INITIALS_LEN: usize = 3;

/// An ASCII letter.
pub open spec fn is_ascii_letter(c: char) -> bool {
    (65 <= (c as u32) <= 90) || (97 <= (c as u32) <= 122)
}

/// An ASCII capital letter.
pub open spec fn is_capital(c: char) -> bool {
    65 <= (c as u32) <= 90
}

/// The capital of an ASCII letter.
pub open spec fn capital_of(c: char) -> char {
    if 97 <= (c as u32) <= 122 {
        (((c as u32) - 32) as u8) as char
    } else {
        c
    }
}

/// The initials typed so far after the keys `typed`: a letter is added, as a
/// capital, while fewer than three are there; anything else is ignored.
pub open spec fn after_typing(init: Seq<char>, typed: Seq<char>) -> Seq<char>
    decreases typed.len(),
{
    if typed.len() == 0 {
        init
    } else {
        let before = after_typing(init, typed.drop_last());
        let c = typed.last();
        if before.len() < INITIALS_LEN && is_ascii_letter(c) {
            before.push(capital_of(c))
        } else {
            before
        }
    }
}

/// Exactly the 52 ASCII letters `A`..`Z` and `a`..`z` count as letters;
/// capitals are `A`..`Z`; a capital stays as it is and a small letter
/// becomes the capital 32 code points below it.
pub proof fn lemma_ascii_letters(c: char)
    ensures
        is_ascii_letter(c) <==> (('A' <= c && c <= 'Z') || ('a' <= c && c <= 'z')),
        is_capital(c) <==> ('A' <= c && c <= 'Z'),
        is_ascii_letter(c) ==> is_capital(capital_of(c)),
        ('A' <= c && c <= 'Z') ==> capital_of(c) == c,
        ('a' <= c && c <= 'z') ==> capital_of(c) as u32 + 32 == c as u32,
{
}

/// Typing a key while fewer than three initials are held adds its capital
/// when it is an ASCII letter and is ignored otherwise; with three held,
/// every key is ignored.
pub proof fn lemma_typing_one_key(init: Seq<char>, typed: Seq<char>, c: char)
    ensures
        ({
            let before = after_typing(init, typed);
            let after = after_typing(init, typed.push(c));
            let letter = ('A' <= c && c <= 'Z') || ('a' <= c && c <= 'z');
            &&& (before.len() < INITIALS_LEN && letter) ==> after == before.push(capital_of(c))
            &&& !(before.len() < INITIALS_LEN && letter) ==> after == before
        }),
{
    assert(typed.push(c).drop_last() =~= typed);
    lemma_ascii_letters(c);
}

/// The capital of an ASCII letter.
fn to_capital(c: char) -> (u: char)
    requires
        is_ascii_letter(c),
    ensures
        u == capital_of(c),
        is_capital(u),
{
    let n: u32 = c as u32;
    if 97 <= n && n <= 122 {
        let b: u8 = (n - 32) as u8;
        b as char
    } else {
        c
    }
}

/// One game session.
pub struct Session {
    screen: Screen,
    score: u32,
    wave: u32,
    lives: i32,
    initials: Vec<char>,
    new_entry_rank: Option<usize>,
    board: Leaderboard,
}

/// The abstract state of a session: screen, score, wave, lives, initials
/// typed, rank of the entry just made, and the high-score table.
pub struct SessionView {
    pub screen: Screen,
    pub score: u32,
    pub wave: u32,
    pub lives: i32,
    pub initials: Seq<char>,
    pub new_entry_rank: Option<usize>,
    pub board: Seq<(Seq<char>, u32)>,
}

impl View for Session {
    type V = SessionView;

    closed spec fn view(&self) -> SessionView {
        SessionView {
            screen: self.screen,
            score: self.score,
            wave: self.wave,
            lives: self.lives,
            initials: self.initials@,
            new_entry_rank: self.new_entry_rank,
            board: self.board@,
        }
    }
}

impl Session {
    /// The table is full and ranked; the initials are at most three
    /// capitals.
    pub closed spec fn wf(&self) -> bool {
        &&& self.board.wf()
        &&& self.initials@.len() <= INITIALS_LEN
        &&& forall|i: int| 0 <= i < self.initials@.len() ==> is_capital(#[trigger] self.initials@[i])
    }

    /// The initials typed are never more than three, and all capitals.
    pub proof fn lemma_initials_are_capitals(&self)
        requires
            self.wf(),
        ensures
            self@.initials.len() <= INITIALS_LEN,
            forall|i: int| 0 <= i < self@.initials.len() ==> is_capital(#[trigger] self@.initials[i]),
            self@.board.len() == crate::leaderboard::TABLE_LEN,
            crate::ranking::is_ranked(self@.board),
    {
    }

    /// A session on the title screen, with the given high-score table.
    pub fn new(board: Leaderboard) -> (s: Self)
        requires
            board.wf(),
        ensures
            s.wf(),
            s@ == (SessionView {
                screen: Screen::Menu,
                score: 0,
                wave: 1,
                lives: START_LIVES,
                initials: Seq::empty(),
                new_entry_rank: None,
                board: board@,
            }),
    {
        Session {
            screen: Screen::Menu,
            score: 0,
            wave: 1,
            lives: START_LIVES,
            initials: Vec::new(),
            new_entry_rank: None,
            board,
        }
    }

    pub fn screen(&self) -> (s: Screen)
        ensures
            s == self@.screen,
    {
        self.screen
    }

    pub fn score(&self) -> (s: u32)
        ensures
            s == self@.score,
    {
        self.score
    }

    pub fn wave(&self) -> (w: u32)
        ensures
            w == self@.wave,
    {
        self.wave
    }

    pub fn lives(&self) -> (l: i32)
        ensures
            l == self@.lives,
    {
        self.lives
    }

    pub fn new_entry_rank(&self) -> (r: Option<usize>)
        ensures
            r == self@.new_entry_rank,
    {
        self.new_entry_rank
    }

    pub fn leaderboard(&self) -> (b: &Leaderboard)
        ensures
            b@ == self@.board,
            self.wf() ==> b.wf(),
    {
        &self.board
    }

    /// The initials typed so far.
    pub fn initials(&self) -> (t: String)
        ensures
            t@ == self@.initials,
    {
        crate::score_file::string_from_chars(&self.initials)
    }

    /// Begins a game: full lives, no score, the first wave.
    pub fn start(&mut self)
        requires
            old(self).wf(),
        ensures
            final(self).wf(),
            final(self)@ == (SessionView {
                screen: Screen::Playing,
                score: 0,
                wave: 1,
                lives: START_LIVES,
                ..old(self)@
            }),
    {
        self.lives = START_LIVES;
        self.score = 0;
        self.wave = 1;
        self.screen = Screen::Playing;
    }

    /// The credits key (C): on the title screen it shows the credits, on the
    /// credits it returns to the title screen; elsewhere it does nothing.
    pub fn credits_key(&mut self) -> (a: ConfirmAction)
        requires
            old(self).wf(),
        ensures
            final(self).wf(),
            ({
                let o = old(self)@;
                let n = final(self)@;
                match o.screen {
                    Screen::Menu => a == ConfirmAction::Nothing && n == (SessionView {
                        screen: Screen::Credits,
                        ..o
                    }),
                    Screen::Credits => a == ConfirmAction::RestartAttract && n == (SessionView {
                        screen: Screen::Menu,
                        ..o
                    }),
                    _ => a == ConfirmAction::Nothing && n == o,
                }
            }),
    {
        match self.screen {
            Screen::Menu => {
                self.screen = Screen::Credits;
                ConfirmAction::Nothing
            },
            Screen::Credits => {
                self.screen = Screen::Menu;
                ConfirmAction::RestartAttract
            },
            _ => ConfirmAction::Nothing,
        }
    }

    /// A confirm press (Enter, Space or a gamepad button). On the title
    /// screen it starts a game; after a game it leads to the entry of
    /// initials when the score makes the table, else to the table; on the
    /// table it returns to the title screen. Elsewhere it does nothing.
    pub fn confirm(&mut self) -> (a: ConfirmAction)
        requires
            old(self).wf(),
        ensures
            final(self).wf(),
            ({
                let o = old(self)@;
                let n = final(self)@;
                match o.screen {
                    Screen::Menu => a == ConfirmAction::StartGame && n == (SessionView {
                        screen: Screen::Playing,
                        score: 0,
                        wave: 1,
                        lives: START_LIVES,
                        ..o
                    }),
                    Screen::GameOver => a == ConfirmAction::Nothing && if o.score > o.board.last().1 {
                        n == (SessionView {
                            screen: Screen::EnterInitials,
                            initials: Seq::empty(),
                            new_entry_rank: None,
                            ..o
                        })
                    } else {
                        n == (SessionView { screen: Screen::Leaderboard, new_entry_rank: None, ..o })
                    },
                    Screen::Leaderboard => a == ConfirmAction::RestartAttract && n == (SessionView {
                        screen: Screen::Menu,
                        new_entry_rank: None,
                        ..o
                    }),
                    Screen::Credits => a == ConfirmAction::RestartAttract && n == (SessionView {
                        screen: Screen::Menu,
                        ..o
                    }),
                    _ => a == ConfirmAction::Nothing && n == o,
                }
            }),
    {
        match self.screen {
            Screen::Menu => {
                self.start();
                ConfirmAction::StartGame
            },
            Screen::GameOver => {
                if self.board.qualifies(self.score) {
                    self.initials.clear();
                    self.new_entry_rank = None;
                    self.screen = Screen::EnterInitials;
                } else {
                    self.new_entry_rank = None;
                    self.screen = Screen::Leaderboard;
                }
                ConfirmAction::Nothing
            },
            Screen::Leaderboard => {
                self.new_entry_rank = None;
                self.screen = Screen::Menu;
                ConfirmAction::RestartAttract
            },
            Screen::Credits => {
                self.screen = Screen::Menu;
                ConfirmAction::RestartAttract
            },
            _ => ConfirmAction::Nothing,
        }
    }

    /// One frame on the initials screen: the letters typed this frame (as
    /// capitals, up to three in all), then Backspace, which erases the last
    /// one, then Enter, which with three letters enters the score into the
    /// table at its rank and shows the table. Returns the rank when an entry
    /// was made.
    pub fn enter_initials(&mut self, typed: &Vec<char>, backspace: bool, enter: bool) -> (r: Option<
        usize,
    >)
        requires
            old(self).wf(),
        ensures
            final(self).wf(),
            ({
                let o = old(self)@;
                let t = after_typing(o.initials, typed@);
                let t2 = if backspace && t.len() > 0 {
                    t.drop_last()
                } else {
                    t
                };
                let rank: nat = rank_in(o.board, o.score);
                if enter && t2.len() == INITIALS_LEN {
                    &&& r == Some(rank as usize)
                    &&& final(self)@ == (SessionView {
                        screen: Screen::Leaderboard,
                        initials: t2,
                        new_entry_rank: Some(rank as usize),
                        board: keep_top(o.board.insert(rank as int, (t2, o.score))),
                        ..o
                    })
                } else {
                    &&& r is None
                    &&& final(self)@ == (SessionView { initials: t2, ..o })
                }
            }),
    {
        let ghost init = self.initials@;
        let mut i: usize = 0;
        while i < typed.len()
            invariant
                i <= typed@.len(),
                self.screen == old(self).screen,
                self.score == old(self).score,
                self.wave == old(self).wave,
                self.lives == old(self).lives,
                self.new_entry_rank == old(self).new_entry_rank,
                self.board == old(self).board,
                old(self).wf(),
                init == old(self).initials@,
                self.initials@ == after_typing(init, typed@.take(i as int)),
                self.initials@.len() <= INITIALS_LEN,
                forall|k: int| 0 <= k < self.initials@.len() ==> is_capital(#[trigger] self.initials@[k]),
            decreases typed@.len() - i,
        {
            let c = typed[i];
            proof {
                assert(typed@.take(i + 1).drop_last() =~= typed@.take(i as int));
                assert(typed@.take(i + 1).last() == c);
            }
            let letter = (65 <= c as u32 && c as u32 <= 90) || (97 <= c as u32 && c as u32 <= 122);
            if self.initials.len() < INITIALS_LEN && letter {
                let u = to_capital(c);
                self.initials.push(u);
            }
            i += 1;
        }
        proof {
            assert(typed@.take(i as int) =~= typed@);
        }
        if backspace && self.initials.len() > 0 {
            self.initials.pop();
        }
        if enter && self.initials.len() == INITIALS_LEN {
            let name = crate::score_file::string_from_chars(&self.initials);
            let rank: usize = self.board.insert(name, self.score);
            self.new_entry_rank = Some(rank);
            self.screen = Screen::Leaderboard;
            Some(rank)
        } else {
            None
        }
    }

    /// The enemies of this frame's `kills` (indices into `foes`) are scored:
    /// the score rises by the sum of their kinds' points.
    pub fn score_kills(&mut self, foes: &Vec<Foe>, kills: &Vec<usize>)
        requires
            old(self).wf(),
            forall|i: int| 0 <= i < kills@.len() ==> (#[trigger] kills@[i]) < foes@.len(),
            old(self)@.score + kill_points(foes@, kills@) <= u32::MAX,
        ensures
            final(self).wf(),
            final(self)@ == (SessionView {
                score: (old(self)@.score + kill_points(foes@, kills@)) as u32,
                ..old(self)@
            }),
    {
        let ghost start = self.score;
        let mut i: usize = 0;
        while i < kills.len()
            invariant
                i <= kills@.len(),
                old(self).wf(),
                self.screen == old(self).screen,
                self.wave == old(self).wave,
                self.lives == old(self).lives,
                self.initials == old(self).initials,
                self.new_entry_rank == old(self).new_entry_rank,
                self.board == old(self).board,
                start == old(self).score,
                forall|k: int| 0 <= k < kills@.len() ==> (#[trigger] kills@[k]) < foes@.len(),
                start + kill_points(foes@, kills@) <= u32::MAX,
                self.score == start + kill_points(foes@, kills@.take(i as int)),
            decreases kills@.len() - i,
        {
            let points = foes[kills[i]].kind.score_value();
            proof {
                assert(kills@.take(i + 1).drop_last() =~= kills@.take(i as int));
                lemma_kill_points_prefix(foes@, kills@, i + 1);
            }
            self.score = self.score + points;
            i += 1;
        }
        assert(kills@.take(i as int) =~= kills@);
    }

    /// The player is hit: one life fewer; with none left the game is over.
    /// Returns whether it is.
    pub fn lose_life(&mut self) -> (over: bool)
        requires
            old(self).wf(),
            old(self)@.lives > i32::MIN,
        ensures
            final(self).wf(),
            over == (old(self)@.lives - 1 <= 0),
            final(self)@ == (SessionView {
                lives: (old(self)@.lives - 1) as i32,
                screen: if over {
                    Screen::GameOver
                } else {
                    old(self)@.screen
                },
                ..old(self)@
            }),
    {
        self.lives = self.lives - 1;
        if self.lives <= 0 {
            self.screen = Screen::GameOver;
            true
        } else {
            false
        }
    }

    /// The end-of-frame wave check: with the arena empty and no spawn
    /// pending, the next wave begins. Returns whether it did.
    pub fn advance_wave(&mut self, enemies_left: usize, spawn_pending: bool) -> (advanced: bool)
        requires
            old(self).wf(),
            enemies_left == 0 && !spawn_pending ==> old(self)@.wave < u32::MAX,
        ensures
            final(self).wf(),
            advanced == (enemies_left == 0 && !spawn_pending),
            final(self)@ == (SessionView {
                wave: if advanced {
                    (old(self)@.wave + 1) as u32
                } else {
                    old(self)@.wave
                },
                ..old(self)@
            }),
    {
        if enemies_left == 0 && !spawn_pending {
            self.wave = self.wave + 1;
            true
        } else {
            false
        }
    }
}

} // verus!
