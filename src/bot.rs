//! The session table: one active round per player, the history of finished
//! rounds, and the handling of the messages players send.

use vstd::prelude::*;
use crate::command::{Command, command_of, parse_command};
use crate::game::{Game, GameView, is_final};

verus! {

/// The lower-case form of a text, as `str::to_lowercase` gives it.
pub uninterp spec fn lower_of(s: Seq<char>) -> Seq<char>;

/// What group `group` of the first match of the regular expression `pattern`
/// in `text` captured, as the `regex` crate finds it; `None` where there is no
/// match, the group took no part in it, or the pattern does not compile.
pub uninterp spec fn regex_capture(pattern: Seq<char>, text: Seq<char>, group: Seq<char>) -> Option<
    Seq<char>,
>;

/// What group `group` captured in each successive match of the regular
/// expression `pattern` in `text`, as the `regex` crate finds them; empty
/// where the pattern does not compile.
pub uninterp spec fn regex_captures_all(
    pattern: Seq<char>,
    text: Seq<char>,
    group: Seq<char>,
) -> Seq<Option<Seq<char>>>;

/// Relies on `str::to_lowercase`: the result depends on the characters alone.
#[verifier::external_body]
fn lowercase(s: &str) -> (r: String)
    ensures
        r@ == lower_of(s@),
{
    s.to_lowercase()
}

/// Relies on regex's `Regex::new` and `Regex::captures`: compiles `pattern`
/// and reports what `group` captured in the first match in `text`.
#[verifier::external_body]
fn first_capture(pattern: &str, text: &str, group: &str) -> (r: Option<String>)
    ensures
        text_of(r) == regex_capture(pattern@, text@, group@),
{
    let re = match regex::Regex::new(pattern) {
        Ok(re) => re,
        Err(_) => return None,
    };
    let caps = re.captures(text)?;
    let m = caps.name(group)?;
    Some(m.as_str().to_string())
}

/// Relies on regex's `Regex::new` and `Regex::captures_iter`: compiles
/// `pattern` and reports, match by match, what `group` captured in `text`.
#[verifier::external_body]
fn all_captures(pattern: &str, text: &str, group: &str) -> (r: Vec<Option<String>>)
    ensures
        r@.map_values(|o: Option<String>| text_of(o)) == regex_captures_all(pattern@, text@, group@),
{
    let mut r = Vec::new();
    if let Ok(re) = regex::Regex::new(pattern) {
        for caps in re.captures_iter(text) {
            r.push(caps.name(group).map(|m| m.as_str().to_string()));
        }
    }
    r
}

/// In a direct-message channel (its id starts with `D`) a whole line is a
/// command; elsewhere a command follows `/blackjack `.
pub open spec fn command_pattern(channel: Seq<char>) -> Seq<char> {
    if channel.len() > 0 && channel[0] == 'D' {
        "(?P<command>.*?)$"@
    } else {
        "/blackjack (?P<command>.*?)$"@
    }
}

/// The command that a message in `channel` carries, if any.
pub open spec fn command_in(message: Option<Seq<char>>, channel: Option<Seq<char>>) -> Option<
    Seq<char>,
> {
    match (channel, message) {
        (Some(c), Some(t)) => regex_capture(command_pattern(c), t, "command"@),
        _ => None,
    }
}

/// The pattern of a mention: `@` and a name.
pub open spec fn mention_pattern() -> Seq<char> {
    "@(?P<bot>[\\w_]+)"@
}

/// The greeting for a message that mentions the bot `name`.
pub open spec fn mention_reply(name: Seq<char>, message: Option<Seq<char>>) -> Option<Seq<char>> {
    if message is Some && regex_captures_all(mention_pattern(), message->0, "bot"@).contains(
        Some(name),
    ) {
        Some("Hi there!"@)
    } else {
        None
    }
}

/// The text `command` from `user` takes the sessions from `s0` to `s1` with
/// reply `r`: nothing happens without a sender; otherwise the command, in
/// lower case, is played for the sender.
pub open spec fn eval_step(
    s0: BotView,
    s1: BotView,
    command: Seq<char>,
    user: Option<Seq<char>>,
    r: Option<Seq<char>>,
) -> bool {
    &&& user is None ==> r is None && s1 == s0
    &&& user is Some ==> exists|g0: GameView|
        #[trigger] session_step(s0, s1, user->0, command_of(lower_of(command)), g0, r)
}

/// The command in a message, if the message is addressed to the bot.
pub fn has_command(message: &Option<String>, channel: &Option<String>) -> (r: Option<String>)
    ensures
        text_of(r) == command_in(text_of(*message), text_of(*channel)),
{
    match channel {
        Some(c) => {
            let c = c.as_str();
            let pattern = if c.unicode_len() > 0 && c.get_char(0) == 'D' {
                "(?P<command>.*?)$"
            } else {
                "/blackjack (?P<command>.*?)$"
            };
            match message {
                Some(text) => first_capture(pattern, text.as_str(), "command"),
                None => None,
            }
        },
        None => None,
    }
}

/// A greeting if the message mentions the bot by name.
pub fn has_bot_mention(bot: &CryptoJackBot, message: &Option<String>) -> (r: Option<String>)
    ensures
        text_of(r) == mention_reply(bot.name@, text_of(*message)),
{
    match message {
        Some(text) => {
            let caps = all_captures("@(?P<bot>[\\w_]+)", text.as_str(), "bot");
            let ghost found = caps@.map_values(|o: Option<String>| text_of(o));
            let n = caps.len();
            let mut i: usize = 0;
            while i < n
                invariant
                    n == caps@.len(),
                    i <= n,
                    found == caps@.map_values(|o: Option<String>| text_of(o)),
                    forall|j: int| 0 <= j < i ==> found[j] != Some(bot.name@),
                    text_of(*message) == Some(text@),
                    found == regex_captures_all(mention_pattern(), text@, "bot"@),
                decreases n - i,
            {
                match &caps[i] {
                    Some(name) => {
                        if *name == bot.name {
                            assert(found[i as int] == Some(bot.name@));
                            return Some(String::from_str("Hi there!"));
                        }
                    },
                    None => {},
                }
                assert(found[i as int] != Some(bot.name@));
                i = i + 1;
            }
            assert(!found.contains(Some(bot.name@)));
            None
        },
        None => None,
    }
}

/// The bot's sessions: the active round of each player, at most one each,
/// and the finished rounds in the order they ended.
pub struct CryptoJackBot {
    pub name: String,
    pub active_games: Vec<Game>,
    pub completed_games: Vec<Game>,
}

/// The sessions as values: active rounds by player, and the history.
pub struct BotView {
    pub name: Seq<char>,
    pub active: Map<Seq<char>, GameView>,
    pub completed: Seq<GameView>,
}

/// The active rounds of `games`, by player.
pub open spec fn table(games: Seq<Game>) -> Map<Seq<char>, GameView>
    decreases games.len(),
{
    if games.len() == 0 {
        Map::empty()
    } else {
        table(games.drop_last()).insert(games.last().player_id@, games.last()@)
    }
}

/// No player has two rounds in `games`.
pub open spec fn unique_players(games: Seq<Game>) -> bool {
    forall|i: int, j: int|
        0 <= i < j < games.len() ==> games[i].player_id@ != games[j].player_id@
}

impl View for CryptoJackBot {
    type V = BotView;

    open spec fn view(&self) -> BotView {
        BotView {
            name: self.name@,
            active: table(self.active_games@),
            completed: self.completed_games@.map_values(|g: Game| g@),
        }
    }
}

/// A reply as text.
pub open spec fn text_of(r: Option<String>) -> Option<Seq<char>> {
    match r {
        Some(s) => Some(s@),
        None => None,
    }
}

/// The round `g` after `c`.
pub open spec fn played(g: GameView, c: Command) -> GameView {
    match c {
        Command::Bet(w) => g.after_bet(w),
        Command::Hit => g.after_hit(),
        Command::Stay => g.after_stay(),
        _ => g,
    }
}

/// The reply to `c`, given the round after it.
pub open spec fn reply_of(g: GameView, c: Command) -> Option<Seq<char>> {
    match c {
        Command::Bet(_) | Command::Hit | Command::Stay => Some(g.render()),
        Command::InvalidBet => Some("Not a valid bet!"@),
        Command::Unknown => None,
    }
}

/// One command of player `id` takes the sessions from `s0` to `s1` with reply
/// `r`, starting from round `g0`: the player's active round, or a new one if
/// there is none. A round that the command finishes leaves the table and is
/// appended to the history; any other stays in the table.
pub open spec fn session_step(
    s0: BotView,
    s1: BotView,
    id: Seq<char>,
    c: Command,
    g0: GameView,
    r: Option<Seq<char>>,
) -> bool {
    let g1 = played(g0, c);
    &&& if s0.active.contains_key(id) {
        g0 == s0.active[id]
    } else {
        g0.is_fresh(id)
    }
    &&& r == reply_of(g1, c)
    &&& s1.name == s0.name
    &&& if is_final(g1.state) {
        &&& s1.active == s0.active.remove(id)
        &&& s1.completed == s0.completed.push(g1)
    } else {
        &&& s1.active == s0.active.insert(id, g1)
        &&& s1.completed == s0.completed
    }
}

/// After a round is over it is out of the table and at the end of the
/// history, added once; the player's next command starts a new round.
pub proof fn lemma_finished_round_archived(
    s0: BotView,
    s1: BotView,
    id: Seq<char>,
    c: Command,
    g0: GameView,
    r: Option<Seq<char>>,
)
    requires
        session_step(s0, s1, id, c, g0, r),
        is_final(played(g0, c).state),
    ensures
        !s1.active.contains_key(id),
        s1.completed.len() == s0.completed.len() + 1,
        s1.completed.last() == played(g0, c),
        s1.completed.drop_last() == s0.completed,
        forall|s2: BotView, c2: Command, g2: GameView, r2: Option<Seq<char>>|
            #[trigger] session_step(s1, s2, id, c2, g2, r2) ==> g2.is_fresh(id),
{
    assert(s1.completed.drop_last() =~= s0.completed);
}

proof fn lemma_table_has(games: Seq<Game>, id: Seq<char>)
    ensures
        table(games).contains_key(id) <==> exists|i: int|
            0 <= i < games.len() && #[trigger] games[i].player_id@ == id,
    decreases games.len(),
{
    if games.len() > 0 {
        lemma_table_has(games.drop_last(), id);
        if table(games.drop_last()).contains_key(id) {
            let i = choose|i: int|
                0 <= i < games.drop_last().len() && #[trigger] games.drop_last()[i].player_id@ == id;
            assert(games[i].player_id@ == id);
        }
        if exists|i: int| 0 <= i < games.len() && #[trigger] games[i].player_id@ == id {
            let i = choose|i: int| 0 <= i < games.len() && #[trigger] games[i].player_id@ == id;
            if i < games.len() - 1 {
                assert(games.drop_last()[i].player_id@ == id);
            }
        }
    }
}

proof fn lemma_table_at(games: Seq<Game>, i: int)
    requires
        unique_players(games),
        0 <= i < games.len(),
    ensures
        table(games).contains_key(games[i].player_id@),
        table(games)[games[i].player_id@] == games[i]@,
    decreases games.len(),
{
    if i < games.len() - 1 {
        let rest = games.drop_last();
        assert(rest[i] == games[i]);
        assert(unique_players(rest)) by {
            assert forall|a: int, b: int| 0 <= a < b < rest.len() implies rest[a].player_id@
                != rest[b].player_id@ by {
                assert(rest[a] == games[a] && rest[b] == games[b]);
            }
        }
        lemma_table_at(rest, i);
        assert(games.last().player_id@ != games[i].player_id@);
    }
}

proof fn lemma_table_remove(games: Seq<Game>, i: int)
    requires
        unique_players(games),
        0 <= i < games.len(),
    ensures
        unique_players(games.remove(i)),
        table(games.remove(i)) == table(games).remove(games[i].player_id@),
    decreases games.len(),
{
    let rest = games.drop_last();
    let id = games[i].player_id@;
    assert(unique_players(rest)) by {
        assert forall|a: int, b: int| 0 <= a < b < rest.len() implies rest[a].player_id@
            != rest[b].player_id@ by {
            assert(rest[a] == games[a] && rest[b] == games[b]);
        }
    }
    assert(unique_players(games.remove(i))) by {
        let g = games.remove(i);
        assert forall|a: int, b: int| 0 <= a < b < g.len() implies g[a].player_id@
            != g[b].player_id@ by {
            let a0 = if a < i { a } else { a + 1 };
            let b0 = if b < i { b } else { b + 1 };
            assert(g[a] == games[a0] && g[b] == games[b0]);
        }
    }
    if i == games.len() - 1 {
        assert(games.remove(i) =~= rest);
        lemma_table_has(rest, id);
        assert(!table(rest).contains_key(id)) by {
            if table(rest).contains_key(id) {
                let j = choose|j: int| 0 <= j < rest.len() && #[trigger] rest[j].player_id@ == id;
                assert(games[j].player_id@ == id);
            }
        }
        assert(table(games.remove(i)) =~= table(games).remove(id));
    } else {
        lemma_table_remove(rest, i);
        assert(games.remove(i).drop_last() =~= rest.remove(i));
        assert(games.remove(i).last() == games.last());
        assert(games.last().player_id@ != id);
        assert(table(games.remove(i)) =~= table(games).remove(id));
    }
}

proof fn lemma_table_push(games: Seq<Game>, g: Game)
    requires
        unique_players(games),
        !table(games).contains_key(g.player_id@),
    ensures
        unique_players(games.push(g)),
        table(games.push(g)) == table(games).insert(g.player_id@, g@),
{
    assert(games.push(g).drop_last() =~= games);
    lemma_table_has(games, g.player_id@);
    assert forall|a: int, b: int| 0 <= a < b < games.push(g).len() implies games.push(g)[
        a
    ].player_id@ != games.push(g)[b].player_id@ by {
        if b == games.len() {
            assert(games.push(g)[a] == games[a]);
        } else {
            assert(games.push(g)[a] == games[a] && games.push(g)[b] == games[b]);
        }
    }
}

impl CryptoJackBot {
    /// What the sessions keep true: one active round per player, each well
    /// formed and not over.
    pub open spec fn wf(&self) -> bool {
        &&& unique_players(self.active_games@)
        &&& forall|i: int|
            0 <= i < self.active_games@.len() ==> {
                &&& (#[trigger] self.active_games@[i])@.wf()
                &&& !is_final(self.active_games@[i].state)
            }
    }

    /// A bot called `name` with no rounds.
    pub fn new(name: &str) -> (b: CryptoJackBot)
        ensures
            b.wf(),
            b@.name == name@,
            b@.active == Map::<Seq<char>, GameView>::empty(),
            b@.completed == Seq::<GameView>::empty(),
    {
        let b = CryptoJackBot {
            name: String::from_str(name),
            active_games: Vec::new(),
            completed_games: Vec::new(),
        };
        assert(b@.completed =~= Seq::<GameView>::empty());
        b
    }

    fn find_game(&self, id: &String) -> (r: Option<usize>)
        ensures
            match r {
                Some(i) => i < self.active_games@.len() && self.active_games@[i as int].player_id@
                    == id@,
                None => forall|j: int|
                    0 <= j < self.active_games@.len() ==> #[trigger] self.active_games@[j].player_id@
                        != id@,
            },
    {
        let n = self.active_games.len();
        let mut i: usize = 0;
        while i < n
            invariant
                n == self.active_games@.len(),
                i <= n,
                forall|j: int| 0 <= j < i ==> #[trigger] self.active_games@[j].player_id@ != id@,
            decreases n - i,
        {
            if self.active_games[i].player_id == *id {
                return Some(i);
            }
            i = i + 1;
        }
        None
    }

    /// Applies the command `command` (in lower case) of player `player_id`:
    /// takes the player's active round, or starts one, plays the command on
    /// it, and moves the round to the history if it is over. Returns the
    /// reply, or `None` for a word that is not a command.
    pub fn handle_command(&mut self, player_id: &str, command: &str) -> (r: Option<String>)
        requires
            old(self).wf(),
        ensures
            final(self).wf(),
            exists|g0: GameView|
                session_step(
                    old(self)@,
                    final(self)@,
                    player_id@,
                    command_of(command@),
                    g0,
                    text_of(r),
                ),
    {
        let key = String::from_str(player_id);
        let ghost s0 = self@;
        let ghost games0 = self.active_games@;
        let found = self.find_game(&key);
        let mut game = match found {
            Some(i) => {
                proof {
                    lemma_table_at(games0, i as int);
                    lemma_table_remove(games0, i as int);
                }
                self.active_games.remove(i)
            },
            None => {
                proof {
                    lemma_table_has(games0, key@);
                }
                Game::new(player_id)
            },
        };
        let ghost g0 = game@;
        assert(!table(self.active_games@).contains_key(player_id@));
        assert(table(self.active_games@) == s0.active.remove(player_id@));
        let cmd = parse_command(command);
        let reply = match cmd {
            Command::Bet(w) => Some(game.bet(w)),
            Command::InvalidBet => Some(String::from_str("Not a valid bet!")),
            Command::Hit => Some(game.hit()),
            Command::Stay => Some(game.stay()),
            Command::Unknown => None,
        };
        assert(game@ == played(g0, cmd));
        if game.is_over() {
            self.completed_games.push(game);
            assert(self@.completed =~= s0.completed.push(game@));
        } else {
            proof {
                lemma_table_push(self.active_games@, game);
            }
            self.active_games.push(game);
            assert(self@.active =~= s0.active.insert(player_id@, game@));
        }
        assert(session_step(s0, self@, player_id@, cmd, g0, text_of(reply)));
        reply
    }

    /// Applies the text `command` sent by `user`, in lower case; nothing
    /// happens without a sender.
    pub fn eval_command(&mut self, command: &str, user: &Option<String>) -> (r: Option<String>)
        requires
            old(self).wf(),
        ensures
            final(self).wf(),
            eval_step(old(self)@, final(self)@, command@, text_of(*user), text_of(r)),
    {
        match user {
            Some(u) => {
                let lowered = lowercase(command);
                let ghost s0 = self@;
                let r = self.handle_command(u.as_str(), lowered.as_str());
                let ghost g0 = choose|g0: GameView|
                    session_step(s0, self@, u@, command_of(lowered@), g0, text_of(r));
                assert(text_of(*user) == Some(u@));
                assert(session_step(
                    s0,
                    self@,
                    text_of(*user)->0,
                    command_of(lower_of(command@)),
                    g0,
                    text_of(r),
                ));
                r
            },
            None => None,
        }
    }

    /// The reply to a message from `user` in `channel`: the reply to the
    /// command it carries, or, for a word that is not a command, a greeting
    /// if the message mentions the bot.
    pub fn respond(
        &mut self,
        message: &Option<String>,
        channel: &Option<String>,
        user: &Option<String>,
    ) -> (r: Option<String>)
        requires
            old(self).wf(),
        ensures
            final(self).wf(),
            match command_in(text_of(*message), text_of(*channel)) {
                None => r is None && final(self)@ == old(self)@,
                Some(command) => exists|o: Option<Seq<char>>|
                    eval_step(old(self)@, final(self)@, command, text_of(*user), o) && text_of(r)
                        == (if o is Some {
                        o
                    } else {
                        mention_reply(old(self)@.name, text_of(*message))
                    }),
            },
    {
        match has_command(message, channel) {
            Some(command) => {
                let ghost s0 = self@;
                let out = self.eval_command(command.as_str(), user);
                let ghost o = text_of(out);
                let ghost found = command_in(text_of(*message), text_of(*channel));
                assert(found->0 == command@);
                assert(eval_step(s0, self@, found->0, text_of(*user), o));
                let r = match out {
                    Some(reply) => Some(reply),
                    None => has_bot_mention(self, message),
                };
                r
            },
            None => None,
        }
    }
}

} // verus!
