//! Command lines of the two programs.

use vstd::prelude::*;
use vstd::string::*;

#[allow(unused_imports)]
use crate::bpe::Bpe;
#[allow(unused_imports)]
use crate::chat::{ids_of, optional_id};
use crate::chat::push_all;
#[allow(unused_imports)]
use crate::gguf::text_view;
use crate::lines::piece;
use crate::text::{parse_unsigned, same_text, to_chars, trim_bounds, trimmed, unsigned_in};
use crate::tokenizer::Tokenizer;

verus! {

/// Why a command line is refused.
#[derive(Debug)]
pub enum ArgError {
    /// The option needs a value.
    NeedsValue(String),
    /// The option's value is no number in its range.
    BadNumber(String),
    /// There is no such option.
    Unknown(String),
    /// No model was given.
    MissingModel,
}

/// Why a command line is refused, as values.
pub ghost enum Refusal {
    NeedsValue(Seq<char>),
    BadNumber(Seq<char>),
    Unknown(Seq<char>),
    MissingModel,
}

impl View for ArgError {
    type V = Refusal;

    open spec fn view(&self) -> Refusal {
        match self {
            ArgError::NeedsValue(s) => Refusal::NeedsValue(s@),
            ArgError::BadNumber(s) => Refusal::BadNumber(s@),
            ArgError::Unknown(s) => Refusal::Unknown(s@),
            ArgError::MissingModel => Refusal::MissingModel,
        }
    }
}

/// What the server is started with.
pub struct ServeArgs {
    pub model: String,
    pub port: u16,
    pub host: String,
    pub ctx: u32,
}

/// The server's options as values.
pub ghost struct Serve {
    pub model: Option<Seq<char>>,
    pub port: int,
    pub host: Seq<char>,
    pub ctx: int,
}

/// The texts of a command line.
pub open spec fn words(args: Seq<String>) -> Seq<Seq<char>> {
    args.map_values(|s: String| s@)
}

/// The server's options before any is read.
pub open spec fn serve_defaults() -> Serve {
    Serve { model: None, port: 11435, host: "127.0.0.1"@, ctx: 8192 }
}

/// Reads the server's options from word `i` on.
pub open spec fn serve_from(w: Seq<Seq<char>>, i: int, s: Serve) -> Result<Serve, Refusal>
    decreases w.len() - i,
{
    if i < 0 || i >= w.len() {
        Ok(s)
    } else if w[i] == "-m"@ || w[i] == "--port"@ || w[i] == "--host"@ || w[i] == "--ctx"@ {
        if i + 1 >= w.len() {
            Err(Refusal::NeedsValue(w[i]))
        } else {
            let v = w[i + 1];
            if w[i] == "-m"@ {
                serve_from(w, i + 2, Serve { model: Some(v), ..s })
            } else if w[i] == "--host"@ {
                serve_from(w, i + 2, Serve { host: v, ..s })
            } else if w[i] == "--port"@ {
                match unsigned_in(v, u16::MAX as nat) {
                    Some(n) => serve_from(w, i + 2, Serve { port: n as int, ..s }),
                    None => Err(Refusal::BadNumber(w[i])),
                }
            } else {
                match unsigned_in(v, u32::MAX as nat) {
                    Some(n) => serve_from(w, i + 2, Serve { ctx: n as int, ..s }),
                    None => Err(Refusal::BadNumber(w[i])),
                }
            }
        }
    } else {
        Err(Refusal::Unknown(w[i]))
    }
}

fn number(s: &str, max: u64) -> (r: Option<u64>)
    ensures
        match r {
            Some(v) => unsigned_in(s@, max as nat) == Some(v as nat),
            None => unsigned_in(s@, max as nat) is None,
        },
{
    let chars: Vec<char> = to_chars(s);
    parse_unsigned(&chars, max)
}

/// Reads the server's command line.
pub fn serve_args(args: &[String]) -> (r: Result<ServeArgs, ArgError>)
    ensures
        match r {
            Ok(a) => serve_from(words(args@), 0, serve_defaults()) == Ok::<Serve, Refusal>(
                Serve {
                    model: Some(a.model@),
                    port: a.port as int,
                    host: a.host@,
                    ctx: a.ctx as int,
                },
            ),
            Err(e) => match serve_from(words(args@), 0, serve_defaults()) {
                Ok(s) => s.model is None && e@ == Refusal::MissingModel,
                Err(f) => e@ == f,
            },
        },
{
    let ghost w = words(args@);
    let mut model: Option<String> = None;
    let mut port: u16 = 11435;
    let mut host: String = String::from_str("127.0.0.1");
    let mut ctx: u32 = 8192;
    let mut i: usize = 0;
    while i < args.len()
        invariant
            i <= args@.len(),
            w == words(args@),
            serve_from(w, 0, serve_defaults()) == serve_from(
                w,
                i as int,
                Serve {
                    model: text_view(model),
                    port: port as int,
                    host: host@,
                    ctx: ctx as int,
                },
            ),
        decreases args@.len() - i,
    {
        let a: &str = args[i].as_str();
        assert(a@ == w[i as int]);
        let is_m: bool = same_text(a, "-m");
        let is_port: bool = same_text(a, "--port");
        let is_host: bool = same_text(a, "--host");
        let is_ctx: bool = same_text(a, "--ctx");
        if !is_m && !is_port && !is_host && !is_ctx {
            return Err(ArgError::Unknown(String::from_str(a)));
        }
        if i + 1 >= args.len() {
            return Err(ArgError::NeedsValue(String::from_str(a)));
        }
        let v: &String = &args[i + 1];
        assert(v@ == w[i + 1]);
        if is_m {
            model = Some(v.clone());
        } else if is_host {
            host = v.clone();
        } else if is_port {
            match number(v.as_str(), u16::MAX as u64) {
                Some(n) => {
                    port = n as u16;
                },
                None => return Err(ArgError::BadNumber(String::from_str(a))),
            }
        } else {
            match number(v.as_str(), u32::MAX as u64) {
                Some(n) => {
                    ctx = n as u32;
                },
                None => return Err(ArgError::BadNumber(String::from_str(a))),
            }
        }
        i += 2;
    }
    match model {
        Some(model) => Ok(ServeArgs { model, port, host, ctx }),
        None => Err(ArgError::MissingModel),
    }
}

/// What the command line tool is started with.
pub struct CliArgs {
    pub model: String,
    pub prompt: Option<String>,
    pub tokens: Option<String>,
    pub n_predict: usize,
    pub ctx: u32,
    /// Whether the text begins with the model's start marker.
    pub bos: bool,
    /// Whether to chat over several turns.
    pub chat: bool,
    /// The system prompt of a chat.
    pub system: Option<String>,
    /// Sampling temperature, as written.
    pub temp: Option<String>,
    /// Share of the probability that is sampled from, as written.
    pub top_p: Option<String>,
    /// Least probability beside the likeliest, as written.
    pub min_p: Option<String>,
    /// Seed of the random numbers.
    pub seed: Option<u64>,
    /// File that the next token's logits go to.
    pub dump_logits: Option<String>,
    /// Whether to rank each position along the given ids.
    pub teacher_force: bool,
    /// Steps to decode and then compare with a fresh prefill.
    pub decode_consistency: Option<usize>,
}

/// The tool's options as values.
pub ghost struct Cli {
    pub model: Option<Seq<char>>,
    pub prompt: Option<Seq<char>>,
    pub tokens: Option<Seq<char>>,
    pub n_predict: int,
    pub ctx: int,
    pub bos: bool,
    pub chat: bool,
    pub system: Option<Seq<char>>,
    pub temp: Option<Seq<char>>,
    pub top_p: Option<Seq<char>>,
    pub min_p: Option<Seq<char>>,
    pub seed: Option<u64>,
    pub dump_logits: Option<Seq<char>>,
    pub teacher_force: bool,
    pub decode_consistency: Option<usize>,
}

/// The tool's options before any is read.
pub open spec fn cli_defaults() -> Cli {
    Cli {
        model: None,
        prompt: None,
        tokens: None,
        n_predict: 16,
        ctx: 2048,
        bos: true,
        chat: false,
        system: None,
        temp: None,
        top_p: None,
        min_p: None,
        seed: None,
        dump_logits: None,
        teacher_force: false,
        decode_consistency: None,
    }
}

/// The options with a switch turned; `None` when `name` is no switch.
pub open spec fn cli_switch(s: Cli, name: Seq<char>) -> Option<Cli> {
    if name == "--no-bos"@ {
        Some(Cli { bos: false, ..s })
    } else if name == "--chat"@ {
        Some(Cli { chat: true, ..s })
    } else if name == "--teacher-force"@ {
        Some(Cli { teacher_force: true, ..s })
    } else {
        None
    }
}

/// Whether an option takes a text.
pub open spec fn takes_text(name: Seq<char>) -> bool {
    ||| name == "-m"@
    ||| name == "-p"@
    ||| name == "--tokens"@
    ||| name == "--system"@
    ||| name == "--temp"@
    ||| name == "--top-p"@
    ||| name == "--min-p"@
    ||| name == "--dump-logits"@
}

/// The options with the text of an option that takes one.
pub open spec fn cli_text(s: Cli, name: Seq<char>, v: Seq<char>) -> Cli {
    if name == "-m"@ {
        Cli { model: Some(v), ..s }
    } else if name == "-p"@ {
        Cli { prompt: Some(v), ..s }
    } else if name == "--tokens"@ {
        Cli { tokens: Some(v), ..s }
    } else if name == "--system"@ {
        Cli { system: Some(v), ..s }
    } else if name == "--temp"@ {
        Cli { temp: Some(v), ..s }
    } else if name == "--top-p"@ {
        Cli { top_p: Some(v), ..s }
    } else if name == "--min-p"@ {
        Cli { min_p: Some(v), ..s }
    } else {
        Cli { dump_logits: Some(v), ..s }
    }
}

/// The largest number that an option takes; `None` when it takes none.
pub open spec fn cli_max(name: Seq<char>) -> Option<nat> {
    if name == "-n"@ || name == "--decode-consistency"@ {
        Some(usize::MAX as nat)
    } else if name == "--ctx"@ {
        Some(u32::MAX as nat)
    } else if name == "--seed"@ {
        Some(u64::MAX as nat)
    } else {
        None
    }
}

/// The options with the number of an option that takes one.
pub open spec fn cli_number(s: Cli, name: Seq<char>, n: nat) -> Cli {
    if name == "-n"@ {
        Cli { n_predict: n as int, ..s }
    } else if name == "--decode-consistency"@ {
        Cli { decode_consistency: Some(n as usize), ..s }
    } else if name == "--ctx"@ {
        Cli { ctx: n as int, ..s }
    } else {
        Cli { seed: Some(n as u64), ..s }
    }
}

/// Reads the tool's options from word `i` on.
pub open spec fn cli_from(w: Seq<Seq<char>>, i: int, s: Cli) -> Result<Cli, Refusal>
    decreases w.len() - i,
{
    if i < 0 || i >= w.len() {
        Ok(s)
    } else {
        match cli_switch(s, w[i]) {
            Some(t) => cli_from(w, i + 1, t),
            None => if !takes_text(w[i]) && cli_max(w[i]) is None {
                Err(Refusal::Unknown(w[i]))
            } else if i + 1 >= w.len() {
                Err(Refusal::NeedsValue(w[i]))
            } else {
                match cli_max(w[i]) {
                    Some(max) => match unsigned_in(w[i + 1], max) {
                        Some(n) => cli_from(w, i + 2, cli_number(s, w[i], n)),
                        None => Err(Refusal::BadNumber(w[i])),
                    },
                    None => cli_from(w, i + 2, cli_text(s, w[i], w[i + 1])),
                }
            },
        }
    }
}

/// The options read so far.
struct Options {
    model: Option<String>,
    prompt: Option<String>,
    tokens: Option<String>,
    n_predict: usize,
    ctx: u32,
    bos: bool,
    chat: bool,
    system: Option<String>,
    temp: Option<String>,
    top_p: Option<String>,
    min_p: Option<String>,
    seed: Option<u64>,
    dump_logits: Option<String>,
    teacher_force: bool,
    decode_consistency: Option<usize>,
}

impl Options {
    /// The options as values.
    spec fn seen(self) -> Cli {
        Cli {
            model: text_view(self.model),
            prompt: text_view(self.prompt),
            tokens: text_view(self.tokens),
            n_predict: self.n_predict as int,
            ctx: self.ctx as int,
            bos: self.bos,
            chat: self.chat,
            system: text_view(self.system),
            temp: text_view(self.temp),
            top_p: text_view(self.top_p),
            min_p: text_view(self.min_p),
            seed: self.seed,
            dump_logits: text_view(self.dump_logits),
            teacher_force: self.teacher_force,
            decode_consistency: self.decode_consistency,
        }
    }

    fn new() -> (o: Options)
        ensures
            o.seen() == cli_defaults(),
    {
        Options {
            model: None,
            prompt: None,
            tokens: None,
            n_predict: 16,
            ctx: 2048,
            bos: true,
            chat: false,
            system: None,
            temp: None,
            top_p: None,
            min_p: None,
            seed: None,
            dump_logits: None,
            teacher_force: false,
            decode_consistency: None,
        }
    }

    fn turn(&mut self, name: &str) -> (known: bool)
        ensures
            match cli_switch(old(self).seen(), name@) {
                Some(s) => known && final(self).seen() == s,
                None => !known && *final(self) == *old(self),
            },
    {
        if same_text(name, "--no-bos") {
            self.bos = false;
        } else if same_text(name, "--chat") {
            self.chat = true;
        } else if same_text(name, "--teacher-force") {
            self.teacher_force = true;
        } else {
            return false;
        }
        true
    }

    fn put_text(&mut self, name: &str, v: &String)
        requires
            takes_text(name@),
        ensures
            final(self).seen() == cli_text(old(self).seen(), name@, v@),
    {
        let v: Option<String> = Some(v.clone());
        if same_text(name, "-m") {
            self.model = v;
        } else if same_text(name, "-p") {
            self.prompt = v;
        } else if same_text(name, "--tokens") {
            self.tokens = v;
        } else if same_text(name, "--system") {
            self.system = v;
        } else if same_text(name, "--temp") {
            self.temp = v;
        } else if same_text(name, "--top-p") {
            self.top_p = v;
        } else if same_text(name, "--min-p") {
            self.min_p = v;
        } else {
            self.dump_logits = v;
        }
    }

    fn put_number(&mut self, name: &str, n: u64)
        requires
            cli_max(name@) matches Some(max) && n <= max,
        ensures
            final(self).seen() == cli_number(old(self).seen(), name@, n as nat),
    {
        if same_text(name, "-n") {
            self.n_predict = n as usize;
        } else if same_text(name, "--decode-consistency") {
            self.decode_consistency = Some(n as usize);
        } else if same_text(name, "--ctx") {
            self.ctx = n as u32;
        } else {
            self.seed = Some(n);
        }
    }
}

fn is_text(name: &str) -> (r: bool)
    ensures
        r == takes_text(name@),
{
    same_text(name, "-m")
        || same_text(name, "-p")
        || same_text(name, "--tokens")
        || same_text(name, "--system")
        || same_text(name, "--temp")
        || same_text(name, "--top-p")
        || same_text(name, "--min-p")
        || same_text(name, "--dump-logits")
}

fn max_number(name: &str) -> (r: Option<u64>)
    ensures
        match r {
            Some(max) => cli_max(name@) == Some(max as nat),
            None => cli_max(name@) is None,
        },
{
    if same_text(name, "-n") || same_text(name, "--decode-consistency") {
        Some(usize::MAX as u64)
    } else if same_text(name, "--ctx") {
        Some(u32::MAX as u64)
    } else if same_text(name, "--seed") {
        Some(u64::MAX)
    } else {
        None
    }
}

/// Reads the tool's command line.
pub fn cli_args(args: &[String]) -> (r: Result<CliArgs, ArgError>)
    ensures
        match r {
            Ok(a) => cli_from(words(args@), 0, cli_defaults()) == Ok::<Cli, Refusal>(
                Cli {
                    model: Some(a.model@),
                    prompt: text_view(a.prompt),
                    tokens: text_view(a.tokens),
                    n_predict: a.n_predict as int,
                    ctx: a.ctx as int,
                    bos: a.bos,
                    chat: a.chat,
                    system: text_view(a.system),
                    temp: text_view(a.temp),
                    top_p: text_view(a.top_p),
                    min_p: text_view(a.min_p),
                    seed: a.seed,
                    dump_logits: text_view(a.dump_logits),
                    teacher_force: a.teacher_force,
                    decode_consistency: a.decode_consistency,
                },
            ),
            Err(e) => match cli_from(words(args@), 0, cli_defaults()) {
                Ok(s) => s.model is None && e@ == Refusal::MissingModel,
                Err(f) => e@ == f,
            },
        },
{
    let ghost w = words(args@);
    let mut o: Options = Options::new();
    let mut i: usize = 0;
    while i < args.len()
        invariant
            i <= args@.len(),
            w == words(args@),
            cli_from(w, 0, cli_defaults()) == cli_from(w, i as int, o.seen()),
        decreases args@.len() - i,
    {
        let a: &str = args[i].as_str();
        assert(a@ == w[i as int]);
        if o.turn(a) {
            i += 1;
            continue;
        }
        let max: Option<u64> = max_number(a);
        if !is_text(a) && max.is_none() {
            return Err(ArgError::Unknown(String::from_str(a)));
        }
        if i + 1 >= args.len() {
            return Err(ArgError::NeedsValue(String::from_str(a)));
        }
        let v: &String = &args[i + 1];
        assert(v@ == w[i + 1]);
        match max {
            Some(max) => match number(v.as_str(), max) {
                Some(n) => o.put_number(a, n),
                None => return Err(ArgError::BadNumber(String::from_str(a))),
            },
            None => o.put_text(a, v),
        }
        i += 2;
    }
    match o.model {
        Some(model) => Ok(
            CliArgs {
                model,
                prompt: o.prompt,
                tokens: o.tokens,
                n_predict: o.n_predict,
                ctx: o.ctx,
                bos: o.bos,
                chat: o.chat,
                system: o.system,
                temp: o.temp,
                top_p: o.top_p,
                min_p: o.min_p,
                seed: o.seed,
                dump_logits: o.dump_logits,
                teacher_force: o.teacher_force,
                decode_consistency: o.decode_consistency,
            },
        ),
        None => Err(ArgError::MissingModel),
    }
}

/// Where the part that starts at `i` ends, before its comma.
pub open spec fn comma_end(s: Seq<char>, i: int) -> int
    decreases s.len() - i,
{
    if 0 <= i < s.len() && s[i] != ',' {
        comma_end(s, i + 1)
    } else {
        i
    }
}

/// The ids of a comma-separated list from `i` on, if every part is one.
pub open spec fn ids_from(s: Seq<char>, i: int) -> Option<Seq<u32>>
    decreases s.len() + 1 - i,
    when 0 <= i <= s.len()
    via ids_decrease
{
    let e = comma_end(s, i);
    match unsigned_in(trimmed(s.subrange(i, e)), u32::MAX as nat) {
        None => None,
        Some(n) => if e < s.len() {
            match ids_from(s, e + 1) {
                Some(rest) => Some(seq![n as u32] + rest),
                None => None,
            }
        } else {
            Some(seq![n as u32])
        },
    }
}

#[via_fn]
proof fn ids_decrease(s: Seq<char>, i: int) {
    comma_end_bounds(s, i);
}

proof fn comma_end_bounds(s: Seq<char>, i: int)
    requires
        0 <= i <= s.len(),
    ensures
        i <= comma_end(s, i) <= s.len(),
    decreases s.len() - i,
{
    if i < s.len() && s[i] != ',' {
        comma_end_bounds(s, i + 1);
    }
}

/// Reads a comma-separated list of token ids.
pub fn parse_ids(text: &str) -> (r: Option<Vec<u32>>)
    ensures
        match r {
            Some(v) => ids_from(text@, 0) == Some(v@),
            None => ids_from(text@, 0) is None,
        },
{
    let s: Vec<char> = to_chars(text);
    let mut v: Vec<u32> = Vec::new();
    let mut i: usize = 0;
    loop
        invariant
            i <= s@.len(),
            s@ == text@,
            match ids_from(s@, i as int) {
                Some(rest) => ids_from(text@, 0) == Some(v@ + rest),
                None => ids_from(text@, 0) is None,
            },
        decreases s@.len() + 1 - i,
    {
        proof {
            comma_end_bounds(s@, i as int);
        }
        let mut e: usize = i;
        while e < s.len() && s[e] != ','
            invariant
                i <= e <= s@.len(),
                comma_end(s@, e as int) == comma_end(s@, i as int),
            decreases s@.len() - e,
        {
            e += 1;
        }
        let part: &[char] = piece(&s, (i, e));
        let (a, b) = trim_bounds(part);
        let n: u32 = match parse_unsigned(piece(part, (a, b)), u32::MAX as u64) {
            Some(n) => n as u32,
            None => return None,
        };
        let ghost before = v@;
        v.push(n);
        if e == s.len() {
            assert(before + seq![n] =~= v@);
            return Some(v);
        }
        proof {
            if let Some(rest) = ids_from(s@, e + 1) {
                assert(before + (seq![n] + rest) =~= v@ + rest);
            }
        }
        i = e + 1;
    }
}

/// Why there is no prompt.
#[derive(Debug, Clone, Copy, PartialEq, Eq, Structural)]
pub enum PromptError {
    /// The list of ids holds something else.
    BadIds,
    /// The text should begin with a start marker, and the model has none.
    NoBos,
    /// Neither text nor ids were given.
    Missing,
}

/// The ids that a command line gives as prompt: the listed ones; else those of
/// the text, behind the start marker where that is wanted.
pub open spec fn prompt_of(
    tokens: Option<Seq<char>>,
    prompt: Option<Seq<char>>,
    bos: bool,
    t: Bpe,
) -> Result<Seq<u32>, PromptError> {
    match (tokens, prompt) {
        (Some(list), _) => match ids_from(list, 0) {
            Some(ids) => Ok(ids),
            None => Err(PromptError::BadIds),
        },
        (None, Some(text)) => if !bos {
            Ok(ids_of(t, text))
        } else {
            match t.bos {
                Some(b) => Ok(seq![b] + ids_of(t, text)),
                None => Err(PromptError::NoBos),
            }
        },
        (None, None) => Err(PromptError::Missing),
    }
}

/// Works out the prompt's ids.
pub fn prompt_ids(a: &CliArgs, tok: &Tokenizer) -> (r: Result<Vec<u32>, PromptError>)
    ensures
        prompt_of(text_view(a.tokens), text_view(a.prompt), a.bos, tok@) == (match r {
            Ok(v) => Ok(v@),
            Err(e) => Err(e),
        }),
        match r {
            Ok(v) => {
                &&& a.tokens matches Some(list) ==> ids_from(list@, 0) == Some(v@)
                &&& a.tokens is None ==> a.prompt is Some && v@ == (if a.bos {
                    optional_id(tok@.bos)
                } else {
                    Seq::empty()
                }) + ids_of(tok@, a.prompt->0@) && (a.bos ==> tok@.bos is Some)
            },
            Err(PromptError::BadIds) => a.tokens is Some,
            Err(PromptError::NoBos) => a.tokens is None && a.bos && tok@.bos is None,
            Err(PromptError::Missing) => a.tokens is None && a.prompt is None,
        },
{
    if let Some(list) = &a.tokens {
        return match parse_ids(list.as_str()) {
            Some(ids) => Ok(ids),
            None => Err(PromptError::BadIds),
        };
    }
    let text: &String = match &a.prompt {
        Some(text) => text,
        None => {
            return Err(PromptError::Missing);
        },
    };
    let mut ids: Vec<u32> = Vec::new();
    if a.bos {
        match tok.special_ids().0 {
            Some(b) => ids.push(b),
            None => {
                return Err(PromptError::NoBos);
            },
        }
    }
    push_all(&mut ids, &tok.encode(text.as_str()));
    assert(ids@ =~= (if a.bos {
        optional_id(tok@.bos)
    } else {
        Seq::empty()
    }) + ids_of(tok@, text@));
    assert(ids@ =~= (if a.bos {
        seq![tok@.bos->0] + ids_of(tok@, text@)
    } else {
        ids_of(tok@, text@)
    }));
    Ok(ids)
}

/// What to do with a greedy pick in the command line tool.
#[derive(Debug, Clone, Copy, PartialEq, Eq, Structural)]
pub enum Pick {
    /// It ends the text.
    Stop,
    /// Show it, and stop: the context is full.
    Last,
    /// Show it, and go on from it.
    Next,
}

/// Decides what to do with a greedy pick.
pub fn take_pick(token: u32, eos: Option<u32>, pos: u32, ctx: u32) -> (p: Pick)
    ensures
        p == (if eos == Some(token) {
            Pick::Stop
        } else if pos >= ctx {
            Pick::Last
        } else {
            Pick::Next
        }),
{
    let ends: bool = match eos {
        Some(e) => e == token,
        None => false,
    };
    if ends {
        Pick::Stop
    } else if pos >= ctx {
        Pick::Last
    } else {
        Pick::Next
    }
}

proof fn option_names_differ()
    ensures
        "-m"@ != "-p"@,
        "-m"@ != "-n"@,
        "-m"@ != "--port"@,
        "-m"@ != "--host"@,
        "-m"@ != "--chat"@,
        "-m"@ != "--temp"@,
        "-m"@ != "--seed"@,
        "-m"@ != "--no-bos"@,
        "-m"@ != "--tokens"@,
        "-m"@ != "--system"@,
        "-m"@ != "--top-p"@,
        "-m"@ != "--min-p"@,
        "-m"@ != "--ctx"@,
        "-m"@ != "--teacher-force"@,
        "-m"@ != "--dump-logits"@,
        "-m"@ != "--decode-consistency"@,
        "-p"@ != "-n"@,
        "-p"@ != "--port"@,
        "-p"@ != "--host"@,
        "-p"@ != "--chat"@,
        "-p"@ != "--temp"@,
        "-p"@ != "--seed"@,
        "-p"@ != "--no-bos"@,
        "-p"@ != "--tokens"@,
        "-p"@ != "--system"@,
        "-p"@ != "--top-p"@,
        "-p"@ != "--min-p"@,
        "-p"@ != "--ctx"@,
        "-p"@ != "--teacher-force"@,
        "-p"@ != "--dump-logits"@,
        "-p"@ != "--decode-consistency"@,
        "-n"@ != "--port"@,
        "-n"@ != "--host"@,
        "-n"@ != "--chat"@,
        "-n"@ != "--temp"@,
        "-n"@ != "--seed"@,
        "-n"@ != "--no-bos"@,
        "-n"@ != "--tokens"@,
        "-n"@ != "--system"@,
        "-n"@ != "--top-p"@,
        "-n"@ != "--min-p"@,
        "-n"@ != "--ctx"@,
        "-n"@ != "--teacher-force"@,
        "-n"@ != "--dump-logits"@,
        "-n"@ != "--decode-consistency"@,
        "--port"@ != "--host"@,
        "--port"@ != "--chat"@,
        "--port"@ != "--temp"@,
        "--port"@ != "--seed"@,
        "--port"@ != "--no-bos"@,
        "--port"@ != "--tokens"@,
        "--port"@ != "--system"@,
        "--port"@ != "--top-p"@,
        "--port"@ != "--min-p"@,
        "--port"@ != "--ctx"@,
        "--port"@ != "--teacher-force"@,
        "--port"@ != "--dump-logits"@,
        "--port"@ != "--decode-consistency"@,
        "--host"@ != "--chat"@,
        "--host"@ != "--temp"@,
        "--host"@ != "--seed"@,
        "--host"@ != "--no-bos"@,
        "--host"@ != "--tokens"@,
        "--host"@ != "--system"@,
        "--host"@ != "--top-p"@,
        "--host"@ != "--min-p"@,
        "--host"@ != "--ctx"@,
        "--host"@ != "--teacher-force"@,
        "--host"@ != "--dump-logits"@,
        "--host"@ != "--decode-consistency"@,
        "--chat"@ != "--temp"@,
        "--chat"@ != "--seed"@,
        "--chat"@ != "--no-bos"@,
        "--chat"@ != "--tokens"@,
        "--chat"@ != "--system"@,
        "--chat"@ != "--top-p"@,
        "--chat"@ != "--min-p"@,
        "--chat"@ != "--ctx"@,
        "--chat"@ != "--teacher-force"@,
        "--chat"@ != "--dump-logits"@,
        "--chat"@ != "--decode-consistency"@,
        "--temp"@ != "--seed"@,
        "--temp"@ != "--no-bos"@,
        "--temp"@ != "--tokens"@,
        "--temp"@ != "--system"@,
        "--temp"@ != "--top-p"@,
        "--temp"@ != "--min-p"@,
        "--temp"@ != "--ctx"@,
        "--temp"@ != "--teacher-force"@,
        "--temp"@ != "--dump-logits"@,
        "--temp"@ != "--decode-consistency"@,
        "--seed"@ != "--no-bos"@,
        "--seed"@ != "--tokens"@,
        "--seed"@ != "--system"@,
        "--seed"@ != "--top-p"@,
        "--seed"@ != "--min-p"@,
        "--seed"@ != "--ctx"@,
        "--seed"@ != "--teacher-force"@,
        "--seed"@ != "--dump-logits"@,
        "--seed"@ != "--decode-consistency"@,
        "--no-bos"@ != "--tokens"@,
        "--no-bos"@ != "--system"@,
        "--no-bos"@ != "--top-p"@,
        "--no-bos"@ != "--min-p"@,
        "--no-bos"@ != "--ctx"@,
        "--no-bos"@ != "--teacher-force"@,
        "--no-bos"@ != "--dump-logits"@,
        "--no-bos"@ != "--decode-consistency"@,
        "--tokens"@ != "--system"@,
        "--tokens"@ != "--top-p"@,
        "--tokens"@ != "--min-p"@,
        "--tokens"@ != "--ctx"@,
        "--tokens"@ != "--teacher-force"@,
        "--tokens"@ != "--dump-logits"@,
        "--tokens"@ != "--decode-consistency"@,
        "--system"@ != "--top-p"@,
        "--system"@ != "--min-p"@,
        "--system"@ != "--ctx"@,
        "--system"@ != "--teacher-force"@,
        "--system"@ != "--dump-logits"@,
        "--system"@ != "--decode-consistency"@,
        "--top-p"@ != "--min-p"@,
        "--top-p"@ != "--ctx"@,
        "--top-p"@ != "--teacher-force"@,
        "--top-p"@ != "--dump-logits"@,
        "--top-p"@ != "--decode-consistency"@,
        "--min-p"@ != "--ctx"@,
        "--min-p"@ != "--teacher-force"@,
        "--min-p"@ != "--dump-logits"@,
        "--min-p"@ != "--decode-consistency"@,
        "--ctx"@ != "--teacher-force"@,
        "--ctx"@ != "--dump-logits"@,
        "--ctx"@ != "--decode-consistency"@,
        "--teacher-force"@ != "--dump-logits"@,
        "--teacher-force"@ != "--decode-consistency"@,
        "--dump-logits"@ != "--decode-consistency"@,
{
    reveal_strlit("-m");
    reveal_strlit("-p");
    reveal_strlit("-n");
    reveal_strlit("--port");
    reveal_strlit("--host");
    reveal_strlit("--chat");
    reveal_strlit("--temp");
    reveal_strlit("--seed");
    reveal_strlit("--no-bos");
    reveal_strlit("--tokens");
    reveal_strlit("--system");
    reveal_strlit("--top-p");
    reveal_strlit("--min-p");
    reveal_strlit("--ctx");
    reveal_strlit("--teacher-force");
    reveal_strlit("--dump-logits");
    reveal_strlit("--decode-consistency");
    assert("-m"@.len() == 2);
    assert("-p"@.len() == 2);
    assert("-n"@.len() == 2);
    assert("--port"@.len() == 6);
    assert("--host"@.len() == 6);
    assert("--chat"@.len() == 6);
    assert("--temp"@.len() == 6);
    assert("--seed"@.len() == 6);
    assert("--no-bos"@.len() == 8);
    assert("--tokens"@.len() == 8);
    assert("--system"@.len() == 8);
    assert("--top-p"@.len() == 7);
    assert("--min-p"@.len() == 7);
    assert("--ctx"@.len() == 5);
    assert("--teacher-force"@.len() == 15);
    assert("--dump-logits"@.len() == 13);
    assert("--decode-consistency"@.len() == 20);
    assert("-m"@[1] != "-p"@[1]);
    assert("-m"@[1] != "-n"@[1]);
    assert("-p"@[1] != "-n"@[1]);
    assert("--port"@[2] != "--host"@[2]);
    assert("--port"@[2] != "--chat"@[2]);
    assert("--port"@[2] != "--temp"@[2]);
    assert("--port"@[2] != "--seed"@[2]);
    assert("--host"@[2] != "--chat"@[2]);
    assert("--host"@[2] != "--temp"@[2]);
    assert("--host"@[2] != "--seed"@[2]);
    assert("--chat"@[2] != "--temp"@[2]);
    assert("--chat"@[2] != "--seed"@[2]);
    assert("--temp"@[2] != "--seed"@[2]);
    assert("--no-bos"@[2] != "--tokens"@[2]);
    assert("--no-bos"@[2] != "--system"@[2]);
    assert("--tokens"@[2] != "--system"@[2]);
    assert("--top-p"@[2] != "--min-p"@[2]);
}

/// What the server is started with when nothing is said: port 11435 of this machine
/// and a context of 8192.
pub proof fn serve_starts_with()
    ensures
        serve_defaults().port == 11435,
        serve_defaults().host == "127.0.0.1"@,
        serve_defaults().ctx == 8192,
        serve_defaults().model is None,
{
}

/// Each option of the server sets its own value and leaves the others; a number that
/// is out of range, a value that is missing and a word that is no option are
/// refused.
pub proof fn serve_option_sets_one(w: Seq<Seq<char>>, i: int, s: Serve)
    requires
        0 <= i,
        i + 1 < w.len(),
    ensures
        ({
            let v = w[i + 1];
            &&& w[i] == "-m"@ ==> serve_from(w, i, s) == serve_from(
                w,
                i + 2,
                Serve { model: Some(v), ..s },
            )
            &&& w[i] == "--host"@ ==> serve_from(w, i, s) == serve_from(
                w,
                i + 2,
                Serve { host: v, ..s },
            )
            &&& w[i] == "--port"@ ==> match unsigned_in(v, u16::MAX as nat) {
                Some(n) => serve_from(w, i, s) == serve_from(
                    w,
                    i + 2,
                    Serve { port: n as int, ..s },
                ),
                None => serve_from(w, i, s) == Err::<Serve, Refusal>(Refusal::BadNumber(w[i])),
            }
            &&& w[i] == "--ctx"@ ==> match unsigned_in(v, u32::MAX as nat) {
                Some(n) => serve_from(w, i, s) == serve_from(
                    w,
                    i + 2,
                    Serve { ctx: n as int, ..s },
                ),
                None => serve_from(w, i, s) == Err::<Serve, Refusal>(Refusal::BadNumber(w[i])),
            }
            &&& w[i] != "-m"@ && w[i] != "--host"@ && w[i] != "--port"@ && w[i] != "--ctx"@
                ==> serve_from(w, i, s) == Err::<Serve, Refusal>(Refusal::Unknown(w[i]))
            &&& serve_from(w, w.len() as int, s) == Ok::<Serve, Refusal>(s)
        }),
{
    option_names_differ();
}

/// What the tool is started with when nothing is said.
pub proof fn tool_starts_with()
    ensures
        ({
            let d = cli_defaults();
            &&& d.n_predict == 16
            &&& d.ctx == 2048
            &&& d.bos
            &&& !d.chat
            &&& !d.teacher_force
            &&& d.model is None && d.prompt is None && d.tokens is None && d.system is None
            &&& d.temp is None && d.top_p is None && d.min_p is None && d.seed is None
            &&& d.dump_logits is None && d.decode_consistency is None
        }),
{
}

/// Each option of the tool sets its own value and leaves the others: switches are
/// turned, texts are taken as they stand, numbers are read within their range.
pub proof fn tool_option_sets_one(w: Seq<Seq<char>>, i: int, s: Cli)
    requires
        0 <= i,
        i + 1 < w.len(),
    ensures
        ({
            let v = w[i + 1];
            &&& w[i] == "--no-bos"@ ==> cli_from(w, i, s) == cli_from(w, i + 1, Cli { bos: false, ..s })
            &&& w[i] == "--chat"@ ==> cli_from(w, i, s) == cli_from(w, i + 1, Cli { chat: true, ..s })
            &&& w[i] == "--teacher-force"@ ==> cli_from(w, i, s) == cli_from(w, i + 1, Cli { teacher_force: true, ..s })
            &&& w[i] == "-m"@ ==> cli_from(w, i, s) == cli_from(
                w,
                i + 2,
                Cli { model: Some(v), ..s },
            )
            &&& w[i] == "-p"@ ==> cli_from(w, i, s) == cli_from(
                w,
                i + 2,
                Cli { prompt: Some(v), ..s },
            )
            &&& w[i] == "--tokens"@ ==> cli_from(w, i, s) == cli_from(
                w,
                i + 2,
                Cli { tokens: Some(v), ..s },
            )
            &&& w[i] == "--system"@ ==> cli_from(w, i, s) == cli_from(
                w,
                i + 2,
                Cli { system: Some(v), ..s },
            )
            &&& w[i] == "--temp"@ ==> cli_from(w, i, s) == cli_from(
                w,
                i + 2,
                Cli { temp: Some(v), ..s },
            )
            &&& w[i] == "--top-p"@ ==> cli_from(w, i, s) == cli_from(
                w,
                i + 2,
                Cli { top_p: Some(v), ..s },
            )
            &&& w[i] == "--min-p"@ ==> cli_from(w, i, s) == cli_from(
                w,
                i + 2,
                Cli { min_p: Some(v), ..s },
            )
            &&& w[i] == "--dump-logits"@ ==> cli_from(w, i, s) == cli_from(
                w,
                i + 2,
                Cli { dump_logits: Some(v), ..s },
            )
            &&& w[i] == "-n"@ ==> match unsigned_in(v, usize::MAX as nat) {
                Some(n) => cli_from(w, i, s) == cli_from(w, i + 2, Cli { n_predict: n as int, ..s }),
                None => cli_from(w, i, s) == Err::<Cli, Refusal>(Refusal::BadNumber(w[i])),
            }
            &&& w[i] == "--decode-consistency"@ ==> match unsigned_in(v, usize::MAX as nat) {
                Some(n) => cli_from(w, i, s) == cli_from(w, i + 2, Cli { decode_consistency: Some(n as usize), ..s }),
                None => cli_from(w, i, s) == Err::<Cli, Refusal>(Refusal::BadNumber(w[i])),
            }
            &&& w[i] == "--ctx"@ ==> match unsigned_in(v, u32::MAX as nat) {
                Some(n) => cli_from(w, i, s) == cli_from(w, i + 2, Cli { ctx: n as int, ..s }),
                None => cli_from(w, i, s) == Err::<Cli, Refusal>(Refusal::BadNumber(w[i])),
            }
            &&& w[i] == "--seed"@ ==> match unsigned_in(v, u64::MAX as nat) {
                Some(n) => cli_from(w, i, s) == cli_from(w, i + 2, Cli { seed: Some(n as u64), ..s }),
                None => cli_from(w, i, s) == Err::<Cli, Refusal>(Refusal::BadNumber(w[i])),
            }
            &&& cli_from(w, w.len() as int, s) == Ok::<Cli, Refusal>(s)
        }),
{
    option_names_differ();
}

/// A list of ids: what stands before a comma, or the end, is one id, with whitespace
/// around it or not, and the rest follows behind the comma.
pub proof fn ids_stand_between_commas(s: Seq<char>, i: int, e: int)
    requires
        0 <= i <= e <= s.len(),
        forall|k: int| i <= k < e ==> (#[trigger] s[k]) != ',',
        e < s.len() ==> s[e] == ',',
    ensures
        match unsigned_in(trimmed(s.subrange(i, e)), u32::MAX as nat) {
            None => ids_from(s, i) is None,
            Some(n) => if e == s.len() {
                ids_from(s, i) == Some(seq![n as u32])
            } else {
                match ids_from(s, e + 1) {
                    None => ids_from(s, i) is None,
                    Some(rest) => ids_from(s, i) == Some(seq![n as u32] + rest),
                }
            },
        },
{
    comma_end_is(s, i, e);
}

proof fn comma_end_is(s: Seq<char>, i: int, e: int)
    requires
        0 <= i <= e <= s.len(),
        forall|k: int| i <= k < e ==> (#[trigger] s[k]) != ',',
        e < s.len() ==> s[e] == ',',
    ensures
        comma_end(s, i) == e,
    decreases e - i,
{
    if i < e {
        assert(s[i] != ',');
        comma_end_is(s, i + 1, e);
    }
}

} // verus!
