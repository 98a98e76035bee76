//! The listing probe's command line.

use vstd::prelude::*;

use crate::text;

verus! {

/// What the probe was asked to do.
#[derive(Debug, PartialEq, Eq)]
pub struct Args {
    /// The configuration file.
    pub config: String,
    /// Which target of the configuration; the first if none is named.
    pub target: Option<String>,
    /// The share-relative directory to walk from, with `\` separators.
    pub root: String,
    /// Directories for the serial phase breakdown and the warm sweeps.
    pub sample: usize,
    /// In-flight window sizes for the throughput sweeps.
    pub windows: Vec<usize>,
    /// Directories per fresh slice in the cold sweeps.
    pub cold_slice: usize,
    /// The in-flight depth held constant across the multi-session sweeps.
    pub session_window: usize,
    /// TCP session counts for the multi-session sweeps.
    pub sessions: Vec<usize>,
    /// How many of the fattest directories to use in the buffer sweep.
    pub fat: usize,
    /// Query buffer sizes to compare, in KiB.
    pub buffers_kib: Vec<u32>,
}

/// The arguments as contracts see them.
#[verifier::ext_equal]
pub struct ArgsView {
    pub config: Seq<char>,
    pub target: Option<Seq<char>>,
    pub root: Seq<char>,
    pub sample: nat,
    pub windows: Seq<nat>,
    pub cold_slice: nat,
    pub session_window: nat,
    pub sessions: Seq<nat>,
    pub fat: nat,
    pub buffers_kib: Seq<nat>,
}

impl View for Args {
    type V = ArgsView;

    open spec fn view(&self) -> ArgsView {
        ArgsView {
            config: self.config@,
            target: match self.target {
                Some(t) => Some(t@),
                None => None,
            },
            root: self.root@,
            sample: self.sample as nat,
            windows: self.windows@.map_values(|v: usize| v as nat),
            cold_slice: self.cold_slice as nat,
            session_window: self.session_window as nat,
            sessions: self.sessions@.map_values(|v: usize| v as nat),
            fat: self.fat as nat,
            buffers_kib: self.buffers_kib@.map_values(|v: u32| v as nat),
        }
    }
}

/// What the probe does when it is told nothing.
pub open spec fn defaults(config: Seq<char>) -> ArgsView {
    ArgsView {
        config,
        target: None,
        root: Seq::empty(),
        sample: 200,
        windows: seq![1, 8, 32, 64, 128],
        cold_slice: 60,
        session_window: 64,
        sessions: seq![1, 2, 4],
        fat: 5,
        buffers_kib: seq![64, 256, 1024],
    }
}

/// `s` with every slash turned into a backslash.
pub open spec fn backslashed(s: Seq<char>) -> Seq<char> {
    s.map_values(
        |c: char|
            if c == '/' {
                '\\'
            } else {
                c
            },
    )
}

/// The number that `value` spells, or `current` if it spells none.
pub open spec fn number_or(value: Seq<char>, current: nat) -> nat {
    match text::number(value, usize::MAX as nat) {
        Some(n) => n,
        None => current,
    }
}

/// The arguments after one flag and its value, or nothing if there is no such flag.
pub open spec fn with_flag(a: ArgsView, flag: Seq<char>, value: Seq<char>) -> Option<ArgsView> {
    if flag == "--config"@ {
        Some(ArgsView { config: value, ..a })
    } else if flag == "--target"@ {
        Some(ArgsView { target: Some(value), ..a })
    } else if flag == "--root"@ {
        Some(ArgsView { root: backslashed(value), ..a })
    } else if flag == "--sample"@ {
        Some(ArgsView { sample: number_or(value, a.sample), ..a })
    } else if flag == "--windows"@ {
        Some(ArgsView { windows: text::csv_numbers(value, usize::MAX as nat), ..a })
    } else if flag == "--cold-slice"@ {
        Some(ArgsView { cold_slice: number_or(value, a.cold_slice), ..a })
    } else if flag == "--session-window"@ {
        Some(ArgsView { session_window: number_or(value, a.session_window), ..a })
    } else if flag == "--sessions"@ {
        Some(ArgsView { sessions: text::csv_numbers(value, usize::MAX as nat), ..a })
    } else if flag == "--fat"@ {
        Some(ArgsView { fat: number_or(value, a.fat), ..a })
    } else if flag == "--buffers"@ {
        Some(ArgsView { buffers_kib: text::csv_numbers(value, u32::MAX as nat), ..a })
    } else {
        None
    }
}

/// The arguments after a whole command line, and the words that were no flag.
///
/// A flag takes the word behind it as its value, whatever that word is, and an empty value if
/// there is none.
pub open spec fn with_words(a: ArgsView, words: Seq<Seq<char>>) -> (ArgsView, Seq<Seq<char>>)
    decreases words.len(),
{
    if words.len() == 0 {
        (a, Seq::empty())
    } else {
        let value = if words.len() > 1 {
            words[1]
        } else {
            Seq::empty()
        };
        match with_flag(a, words[0], value) {
            Some(next) => with_words(
                next,
                if words.len() > 1 {
                    words.skip(2)
                } else {
                    Seq::empty()
                },
            ),
            None => {
                let rest = with_words(a, words.drop_first());
                (rest.0, seq![words[0]] + rest.1)
            },
        }
    }
}

/// A list of strings as contracts see it.
pub open spec fn word_views(words: Seq<String>) -> Seq<Seq<char>> {
    words.map_values(|w: String| w@)
}

fn is_flag(word: &String, flag: &str) -> (yes: bool)
    ensures
        yes == (word@ == flag@),
{
    *word == flag.to_string()
}

fn to_backslashes(s: &str) -> (out: String)
    ensures
        out@ == backslashed(s@),
{
    let chars = text::chars_of(s);
    let mut out = String::new();
    let mut i: usize = 0;
    assert(out@ =~= backslashed(chars@.take(0)));
    while i < chars.len()
        invariant
            i <= chars.len(),
            out@ == backslashed(chars@.take(i as int)),
        decreases chars.len() - i,
    {
        if chars[i] == '/' {
            out.push('\\');
        } else {
            out.push(chars[i]);
        }
        i = i + 1;
        assert(out@ =~= backslashed(chars@.take(i as int)));
    }
    assert(chars@.take(i as int) =~= chars@);
    out
}

fn usize_or(value: &str, current: usize) -> (n: usize)
    ensures
        n == number_or(value@, current as nat),
{
    match text::parse_number(value, usize::MAX as u64) {
        Some(n) => n as usize,
        None => current,
    }
}

impl Args {
    fn new(config: String) -> (a: Args)
        ensures
            a@ == defaults(config@),
    {
        let a = Args {
            config,
            target: None,
            root: String::new(),
            sample: 200,
            windows: vec![1, 8, 32, 64, 128],
            cold_slice: 60,
            session_window: 64,
            sessions: vec![1, 2, 4],
            fat: 5,
            buffers_kib: vec![64, 256, 1024],
        };
        assert(a@ =~= defaults(config@));
        a
    }

    /// Applies one flag. `false` if there is no such flag.
    fn apply(&mut self, flag: &String, value: &str) -> (known: bool)
        ensures
            known == (with_flag(old(self)@, flag@, value@) is Some),
            known ==> with_flag(old(self)@, flag@, value@) == Some(final(self)@),
            !known ==> final(self)@ == old(self)@,
    {
        if is_flag(flag, "--config") {
            self.config = value.to_string();
        } else if is_flag(flag, "--target") {
            self.target = Some(value.to_string());
        } else if is_flag(flag, "--root") {
            self.root = to_backslashes(value);
        } else if is_flag(flag, "--sample") {
            self.sample = usize_or(value, self.sample);
        } else if is_flag(flag, "--windows") {
            self.windows = text::parse_usize_csv(value);
        } else if is_flag(flag, "--cold-slice") {
            self.cold_slice = usize_or(value, self.cold_slice);
        } else if is_flag(flag, "--session-window") {
            self.session_window = usize_or(value, self.session_window);
        } else if is_flag(flag, "--sessions") {
            self.sessions = text::parse_usize_csv(value);
        } else if is_flag(flag, "--fat") {
            self.fat = usize_or(value, self.fat);
        } else if is_flag(flag, "--buffers") {
            self.buffers_kib = text::parse_u32_csv(value);
        } else {
            return false;
        }
        true
    }

    /// Reads a command line (without the program's own name). `config` is the configuration path
    /// to use unless `--config` names another. The second result holds the words that were no
    /// flag, in order; they are ignored.
    pub fn parse(words: &[String], config: String) -> (parsed: (Args, Vec<String>))
        ensures
            parsed.0@ == with_words(defaults(config@), word_views(words@)).0,
            word_views(parsed.1@) == with_words(defaults(config@), word_views(words@)).1,
    {
        let ghost start = defaults(config@);
        let ghost all = word_views(words@);
        let mut a = Args::new(config);
        let mut ignored: Vec<String> = Vec::new();
        let mut i: usize = 0;
        proof {
            assert(all.skip(0) =~= all);
            assert(word_views(ignored@) + with_words(start, all).1 =~= with_words(start, all).1);
        }
        while i < words.len()
            invariant
                i <= words.len(),
                all == word_views(words@),
                with_words(start, all).0 == with_words(a@, all.skip(i as int)).0,
                with_words(start, all).1 == word_views(ignored@) + with_words(
                    a@,
                    all.skip(i as int),
                ).1,
            decreases words.len() - i,
        {
            let ghost here = all.skip(i as int);
            let ghost before = a@;
            let flag = &words[i];
            assert(here[0] == flag@);
            let value: &str = if i + 1 < words.len() {
                words[i + 1].as_str()
            } else {
                ""
            };
            proof {
                reveal_strlit("");
                if i + 1 < words.len() {
                    assert(here[1] == words@[i + 1]@);
                    assert(here.skip(2) =~= all.skip(i + 2));
                } else {
                    assert(value@ =~= Seq::empty());
                    assert(all.skip(i + 1) =~= Seq::empty());
                }
                assert(here.drop_first() =~= all.skip(i + 1));
            }
            if a.apply(flag, value) {
                if i + 1 < words.len() {
                    i = i + 2;
                } else {
                    i = i + 1;
                }
            } else {
                let ghost dropped = word_views(ignored@);
                ignored.push(flag.clone());
                proof {
                    assert(word_views(ignored@) =~= dropped.push(flag@));
                    let rest = with_words(before, here.drop_first()).1;
                    assert(dropped + (seq![flag@] + rest) =~= dropped.push(flag@) + rest);
                }
                i = i + 1;
            }
        }
        proof {
            assert(all.skip(i as int) =~= Seq::empty());
            assert(word_views(ignored@) + Seq::<Seq<char>>::empty() =~= word_views(ignored@));
        }
        (a, ignored)
    }
}

/// The configuration path is the one that was given unless a word says `--config`.
pub proof fn law_config_only_by_flag(a: ArgsView, words: Seq<Seq<char>>)
    requires
        forall|i: int| 0 <= i < words.len() ==> #[trigger] words[i] != "--config"@,
    ensures
        with_words(a, words).0.config == a.config,
    decreases words.len(),
{
    if words.len() > 0 {
        let value = if words.len() > 1 {
            words[1]
        } else {
            Seq::empty()
        };
        match with_flag(a, words[0], value) {
            Some(next) => {
                let rest = if words.len() > 1 {
                    words.skip(2)
                } else {
                    Seq::empty()
                };
                law_config_only_by_flag(next, rest);
            },
            None => {
                law_config_only_by_flag(a, words.drop_first());
            },
        }
    }
}

/// Words that are no flag change nothing and are all reported.
pub proof fn law_unknown_words_change_nothing(a: ArgsView, words: Seq<Seq<char>>)
    requires
        forall|i: int, value: Seq<char>|
            0 <= i < words.len() ==> (#[trigger] with_flag(a, words[i], value)) is None,
    ensures
        with_words(a, words) == (a, words),
    decreases words.len(),
{
    if words.len() > 0 {
        let rest = words.drop_first();
        assert forall|i: int, value: Seq<char>| 0 <= i < rest.len() implies (
        #[trigger] with_flag(a, rest[i], value)) is None by {
            assert(rest[i] == words[i + 1]);
        }
        law_unknown_words_change_nothing(a, rest);
        let value = if words.len() > 1 {
            words[1]
        } else {
            Seq::empty()
        };
        assert(with_flag(a, words[0], value) is None);
        assert(seq![words[0]] + rest =~= words);
    } else {
        assert(words =~= Seq::empty());
    }
}

/// What the probe does when it is told nothing, whatever its configuration file.
pub proof fn law_the_defaults(config: Seq<char>)
    ensures
        ({
            let a = defaults(config);
            &&& a.config == config
            &&& a.target is None
            &&& a.root.len() == 0
            &&& a.sample == 200
            &&& a.windows == seq![1nat, 8, 32, 64, 128]
            &&& a.cold_slice == 60
            &&& a.session_window == 64
            &&& a.sessions == seq![1nat, 2, 4]
            &&& a.fat == 5
            &&& a.buffers_kib == seq![64nat, 256, 1024]
        }),
{
}

/// Turning slashes around changes the slashes and nothing else.
pub proof fn law_backslashes(s: Seq<char>)
    ensures
        backslashed(s).len() == s.len(),
        forall|i: int|
            0 <= i < s.len() ==> #[trigger] backslashed(s)[i] == (if s[i] == '/' {
                '\\'
            } else {
                s[i]
            }),
{
}

proof fn lemma_flags_differ()
    ensures
        "--config"@.len() == 8 && "--config"@[2] == 'c',
        "--target"@.len() == 8 && "--target"@[2] == 't',
        "--root"@.len() == 6,
        "--sample"@.len() == 8 && "--sample"@[2] == 's',
        "--windows"@.len() == 9 && "--windows"@[2] == 'w',
        "--cold-slice"@.len() == 12,
        "--session-window"@.len() == 16,
        "--sessions"@.len() == 10,
        "--fat"@.len() == 5,
        "--buffers"@.len() == 9 && "--buffers"@[2] == 'b',
{
    reveal_strlit("--config");
    reveal_strlit("--target");
    reveal_strlit("--root");
    reveal_strlit("--sample");
    reveal_strlit("--windows");
    reveal_strlit("--cold-slice");
    reveal_strlit("--session-window");
    reveal_strlit("--sessions");
    reveal_strlit("--fat");
    reveal_strlit("--buffers");
}

/// Each flag sets its own field to its value and leaves the others alone.
pub proof fn law_each_flag_sets_its_field(a: ArgsView, value: Seq<char>)
    ensures
        with_flag(a, "--config"@, value) == Some(ArgsView { config: value, ..a }),
        with_flag(a, "--target"@, value) == Some(ArgsView { target: Some(value), ..a }),
        with_flag(a, "--root"@, value) == Some(ArgsView { root: backslashed(value), ..a }),
        with_flag(a, "--windows"@, value) == Some(
            ArgsView { windows: text::csv_numbers(value, usize::MAX as nat), ..a },
        ),
        with_flag(a, "--sessions"@, value) == Some(
            ArgsView { sessions: text::csv_numbers(value, usize::MAX as nat), ..a },
        ),
        with_flag(a, "--buffers"@, value) == Some(
            ArgsView { buffers_kib: text::csv_numbers(value, u32::MAX as nat), ..a },
        ),
{
    lemma_flags_differ();
}

/// Each flag that takes a number sets its own field to that number, every number that can be held, and
/// leaves the others alone; what is no such number leaves that field alone too.
pub proof fn law_each_number_flag_sets_its_field(a: ArgsView, n: nat, other: Seq<char>)
    requires
        n <= usize::MAX,
        text::number(other, usize::MAX as nat) is None,
    ensures
        with_flag(a, "--sample"@, text::decimal(n)) == Some(ArgsView { sample: n, ..a }),
        with_flag(a, "--cold-slice"@, text::decimal(n)) == Some(ArgsView { cold_slice: n, ..a }),
        with_flag(a, "--session-window"@, text::decimal(n)) == Some(
            ArgsView { session_window: n, ..a },
        ),
        with_flag(a, "--fat"@, text::decimal(n)) == Some(ArgsView { fat: n, ..a }),
        with_flag(a, "--sample"@, other) == Some(a),
        with_flag(a, "--cold-slice"@, other) == Some(a),
        with_flag(a, "--session-window"@, other) == Some(a),
        with_flag(a, "--fat"@, other) == Some(a),
{
    lemma_flags_differ();
    text::law_numbers_read_back(n, usize::MAX as nat);
}

/// There are ten flags.
pub proof fn law_which_words_are_flags(a: ArgsView, word: Seq<char>, value: Seq<char>)
    ensures
        with_flag(a, word, value) is Some <==> ({
            ||| word == "--config"@
            ||| word == "--target"@
            ||| word == "--root"@
            ||| word == "--sample"@
            ||| word == "--windows"@
            ||| word == "--cold-slice"@
            ||| word == "--session-window"@
            ||| word == "--sessions"@
            ||| word == "--fat"@
            ||| word == "--buffers"@
        }),
{
}

/// A command line is read from the front: a flag takes the word behind it as its value, or none at the
/// end; any other word is put aside; and what is left is read the same way.
pub proof fn law_words_are_read_from_the_front(
    a: ArgsView,
    word: Seq<char>,
    value: Seq<char>,
    rest: Seq<Seq<char>>,
)
    ensures
        with_words(a, Seq::empty()) == (a, Seq::<Seq<char>>::empty()),
        with_flag(a, word, value) matches Some(next) ==> with_words(a, seq![word, value] + rest)
            == with_words(next, rest),
        with_flag(a, word, Seq::empty()) matches Some(next) ==> with_words(a, seq![word]) == (
            next,
            Seq::<Seq<char>>::empty(),
        ),
        with_flag(a, word, value) is None ==> ({
            let read = with_words(a, seq![word] + rest);
            &&& read.0 == with_words(a, rest).0
            &&& read.1 == seq![word] + with_words(a, rest).1
        }),
{
    let known = seq![word, value] + rest;
    assert(known.skip(2) =~= rest);
    assert(known[0] == word && known[1] == value);
    let unknown = seq![word] + rest;
    assert(unknown.drop_first() =~= rest);
    assert(unknown[0] == word);
    reveal_with_fuel(with_words, 2);
    law_which_words_are_flags(a, word, value);
    law_which_words_are_flags(
        a,
        word,
        if unknown.len() > 1 {
            unknown[1]
        } else {
            Seq::empty()
        },
    );
}

/// A list of words is seen word by word.
pub proof fn law_word_views(words: Seq<String>)
    ensures
        word_views(words).len() == words.len(),
        forall|i: int| 0 <= i < words.len() ==> #[trigger] word_views(words)[i] == words[i]@,
{
}

} // verus!
