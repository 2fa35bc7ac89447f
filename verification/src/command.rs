//! The text command language: whitespace tokenization and the restricted
//! `add`/`rm` grammar, parsed exactly as specified — a position flag whose
//! two amounts are missing is accepted with the amounts left unset, while
//! an unrecognized flag aborts the whole command.

use vstd::prelude::*;
use crate::decimal::amount_of;
use crate::text::push_char;

verus! {

/// A parsed command: a watchlist/portfolio addition or update, a removal,
/// or a rejection with user-visible text.
pub enum Command {
    Add {
        name: String,
        watchlist: bool,
        portfolio: bool,
        owned: Option<i64>,
        avg_buy_price: Option<i64>,
    },
    Remove { name: String, watchlist: bool, portfolio: bool },
    Invalid(String),
}

/// The ghost mirror of a parsed command, over character sequences and
/// unbounded integers.
pub enum SpecCommand {
    Add {
        name: Seq<char>,
        watchlist: bool,
        portfolio: bool,
        owned: Option<int>,
        avg_buy_price: Option<int>,
    },
    Remove { name: Seq<char>, watchlist: bool, portfolio: bool },
    Invalid(InvalidKind),
}

/// Why a command was rejected.
pub enum InvalidKind {
    Empty,
    AddUsage,
    RmUsage,
    BadFlag,
    UnknownVerb,
}

/// The user-visible text of each rejection.
pub open spec fn invalid_text(k: InvalidKind) -> Seq<char> {
    match k {
        InvalidKind::Empty => "Empty command"@,
        InvalidKind::AddUsage => "Usage: add <name> [-w|-p] [amount] [price]"@,
        InvalidKind::RmUsage => "Usage: rm <name> [-w|-p|-wp]"@,
        InvalidKind::BadFlag => "Invalid flag"@,
        InvalidKind::UnknownVerb => "Unknown command. Available commands: add, rm"@,
    }
}

/// The executable command `c` realizes the ghost command `s`.
pub open spec fn command_matches(c: Command, s: SpecCommand) -> bool {
    match c {
        Command::Add { name, watchlist, portfolio, owned, avg_buy_price } => {
            &&& s matches SpecCommand::Add {
                name: sn,
                watchlist: sw,
                portfolio: sp,
                owned: so,
                avg_buy_price: sa,
            }
            &&& name@ == sn
            &&& watchlist == sw
            &&& portfolio == sp
            &&& as_int_opt(owned) == so
            &&& as_int_opt(avg_buy_price) == sa
        },
        Command::Remove { name, watchlist, portfolio } => {
            &&& s matches SpecCommand::Remove { name: sn, watchlist: sw, portfolio: sp }
            &&& name@ == sn
            &&& watchlist == sw
            &&& portfolio == sp
        },
        Command::Invalid(msg) => {
            &&& s matches SpecCommand::Invalid(k)
            &&& msg@ == invalid_text(k)
        },
    }
}

pub open spec fn as_int_opt(o: Option<i64>) -> Option<int> {
    match o {
        Some(v) => Some(v as int),
        None => None,
    }
}

/// Command-language whitespace.
pub open spec fn is_space(c: char) -> bool {
    c == ' ' || c == '\t' || c == '\n' || c == '\r'
}

/// End of the token starting at `i`: the first whitespace position at or
/// after `i`, or the end of the input.
pub open spec fn token_end_from(s: Seq<char>, i: int) -> int
    decreases s.len() - i when 0 <= i <= s.len()
{
    if i >= s.len() {
        i
    } else if is_space(s[i]) {
        i
    } else {
        token_end_from(s, i + 1)
    }
}

pub proof fn lemma_token_end_from(s: Seq<char>, i: int)
    requires
        0 <= i <= s.len(),
    ensures
        i <= token_end_from(s, i) <= s.len(),
        forall|j: int| i <= j < token_end_from(s, i) ==> !is_space(s[j]),
        token_end_from(s, i) < s.len() ==> is_space(s[token_end_from(s, i)]),
    decreases s.len() - i,
{
    if i < s.len() && !is_space(s[i]) {
        lemma_token_end_from(s, i + 1);
    }
}

/// The whitespace-separated tokens of the input from position `i` on.
pub open spec fn tokens_from(s: Seq<char>, i: int) -> Seq<Seq<char>>
    decreases s.len() - i when 0 <= i <= s.len() via tokens_from_decreases
{
    if i >= s.len() {
        Seq::empty()
    } else if is_space(s[i]) {
        tokens_from(s, i + 1)
    } else {
        seq![s.subrange(i, token_end_from(s, i))] + tokens_from(s, token_end_from(s, i))
    }
}

#[via_fn]
proof fn tokens_from_decreases(s: Seq<char>, i: int) {
    if 0 <= i <= s.len() && i < s.len() && !is_space(s[i]) {
        lemma_token_end_from(s, i);
        assert(token_end_from(s, i) >= i + 1);
    }
}

/// The tokens of a whole input string.
pub open spec fn tokens_of(s: Seq<char>) -> Seq<Seq<char>> {
    tokens_from(s, 0)
}

/// Splits the input at whitespace into its tokens.
pub fn tokenize(s: &str) -> (toks: Vec<Vec<char>>)
    ensures
        toks@.map_values(|t: Vec<char>| t@) == tokens_of(s@),
{
    let cs = crate::text::chars_of(s);
    let n = cs.len();
    let mut toks: Vec<Vec<char>> = Vec::new();
    let mut i: usize = 0;
    while i < n
        invariant
            n == s@.len(),
            cs@ == s@,
            i <= n,
            toks@.map_values(|t: Vec<char>| t@) + tokens_from(s@, i as int) == tokens_of(s@),
        decreases n - i,
    {
        let c = cs[i];
        if c == ' ' || c == '\t' || c == '\n' || c == '\r' {
            i = i + 1;
        } else {
            // scan to the token's end
            let start = i;
            let mut j = i;
            while j < n && !(cs[j] == ' ' || cs[j] == '\t' || cs[j] == '\n' || cs[j] == '\r')
                invariant
                    n == s@.len(),
                    cs@ == s@,
                    start <= j <= n,
                    token_end_from(s@, start as int) == token_end_from(s@, j as int),
                decreases n - j,
            {
                j = j + 1;
            }
            proof {
                assert(token_end_from(s@, j as int) == j);
            }
            // collect the token's characters
            let mut tok: Vec<char> = Vec::new();
            proof {
                assert(tok@ =~= s@.subrange(start as int, start as int));
            }
            let mut k = start;
            while k < j
                invariant
                    n == s@.len(),
                    start <= k <= j <= n,
                    cs@ == s@,
                    tok@ == s@.subrange(start as int, k as int),
                decreases j - k,
            {
                tok.push(cs[k]);
                k = k + 1;
                proof {
                    assert(tok@ =~= s@.subrange(start as int, k as int));
                }
            }
            proof {
                let ghost old_map = toks@.map_values(|t: Vec<char>| t@);
                assert(old_map.push(tok@) =~= toks@.push(tok).map_values(
                    |t: Vec<char>| t@,
                ));
                assert(tokens_from(s@, start as int) == seq![tok@] + tokens_from(
                    s@,
                    j as int,
                ));
                assert(old_map.push(tok@) + tokens_from(s@, j as int) =~= old_map + (
                seq![tok@] + tokens_from(s@, j as int)));
            }
            toks.push(tok);
            i = j;
        }
    }
    proof {
        assert(toks@.map_values(|t: Vec<char>| t@) + tokens_from(s@, s@.len() as int)
            =~= toks@.map_values(|t: Vec<char>| t@));
    }
    toks
}

/// Folds `add`'s flag tokens from position `i` on, with the state gathered
/// so far. A position flag followed by its two amount tokens consumes them,
/// replacing the amounts with whatever those tokens parse to; a position
/// flag without both amount tokens is accepted and leaves them as gathered.
/// With no flag at all, watchlist membership is the default.
pub open spec fn add_flags(
    toks: Seq<Seq<char>>,
    i: int,
    w: bool,
    p: bool,
    owned: Option<int>,
    avg: Option<int>,
) -> SpecCommand
    decreases toks.len() - i when 2 <= i
{
    if i >= toks.len() {
        SpecCommand::Add {
            name: toks[1],
            watchlist: if !w && !p {
                true
            } else {
                w
            },
            portfolio: p,
            owned,
            avg_buy_price: avg,
        }
    } else if toks[i] == "-w"@ {
        add_flags(toks, i + 1, true, p, owned, avg)
    } else if toks[i] == "-p"@ || toks[i] == "-wp"@ || toks[i] == "-pw"@ {
        let w2 = if toks[i] == "-p"@ {
            w
        } else {
            true
        };
        if i + 2 < toks.len() {
            add_flags(toks, i + 3, w2, true, amount_of(toks[i + 1]), amount_of(toks[i + 2]))
        } else {
            add_flags(toks, i + 1, w2, true, owned, avg)
        }
    } else {
        SpecCommand::Invalid(InvalidKind::BadFlag)
    }
}

/// Folds `rm`'s flag tokens from position `i` on. With no flag at all, both
/// memberships are removed.
pub open spec fn rm_flags(toks: Seq<Seq<char>>, i: int, w: bool, p: bool) -> SpecCommand
    decreases toks.len() - i when 2 <= i
{
    if i >= toks.len() {
        SpecCommand::Remove {
            name: toks[1],
            watchlist: if !w && !p {
                true
            } else {
                w
            },
            portfolio: if !w && !p {
                true
            } else {
                p
            },
        }
    } else if toks[i] == "-w"@ {
        rm_flags(toks, i + 1, true, p)
    } else if toks[i] == "-p"@ {
        rm_flags(toks, i + 1, w, true)
    } else if toks[i] == "-wp"@ || toks[i] == "-pw"@ {
        rm_flags(toks, i + 1, true, true)
    } else {
        SpecCommand::Invalid(InvalidKind::BadFlag)
    }
}

/// What a token list parses to: the first token selects the verb, the
/// second names the subject, the rest are flags.
pub open spec fn spec_parse(toks: Seq<Seq<char>>) -> SpecCommand {
    if toks.len() == 0 {
        SpecCommand::Invalid(InvalidKind::Empty)
    } else if toks[0] == "add"@ {
        if toks.len() < 2 {
            SpecCommand::Invalid(InvalidKind::AddUsage)
        } else {
            add_flags(toks, 2, false, false, None, None)
        }
    } else if toks[0] == "rm"@ {
        if toks.len() < 2 {
            SpecCommand::Invalid(InvalidKind::RmUsage)
        } else {
            rm_flags(toks, 2, false, false)
        }
    } else {
        SpecCommand::Invalid(InvalidKind::UnknownVerb)
    }
}

/// What a whole input line parses to.
pub open spec fn command_of(input: Seq<char>) -> SpecCommand {
    spec_parse(tokens_of(input))
}

/// Whether a token equals a literal, by characters.
fn tok_is(tok: &Vec<char>, lit: &str) -> (r: bool)
    ensures
        r == (tok@ == lit@),
{
    let n = lit.unicode_len();
    if tok.len() != n {
        proof {
            assert(tok@ != lit@);
        }
        return false;
    }
    let mut i: usize = 0;
    while i < n
        invariant
            n == lit@.len(),
            tok@.len() == n,
            i <= n,
            forall|j: int| 0 <= j < i ==> tok@[j] == lit@[j],
        decreases n - i,
    {
        if tok[i] != lit.get_char(i) {
            proof {
                assert(tok@ != lit@);
            }
            return false;
        }
        i = i + 1;
    }
    proof {
        assert(tok@ =~= lit@);
    }
    true
}

/// Builds a string from the token's characters.
fn string_of(tok: &Vec<char>) -> (r: String)
    ensures
        r@ == tok@,
{
    let mut r = String::new();
    let mut i: usize = 0;
    while i < tok.len()
        invariant
            i <= tok@.len(),
            r@ == tok@.subrange(0, i as int),
        decreases tok@.len() - i,
    {
        push_char(&mut r, tok[i]);
        i = i + 1;
        proof {
            assert(r@ =~= tok@.subrange(0, i as int));
        }
    }
    proof {
        assert(tok@.subrange(0, tok@.len() as int) =~= tok@);
    }
    r
}

fn invalid(lit: &str) -> (c: Command)
    ensures
        c matches Command::Invalid(m) && m@ == lit@,
{
    let mut m = String::new();
    m.append(lit);
    Command::Invalid(m)
}

/// Parses one input line of the command language.
pub fn parse_command(input: &str) -> (c: Command)
    ensures
        command_matches(c, command_of(input@)),
{
    let toks = tokenize(input);
    let ghost tv = toks@.map_values(|t: Vec<char>| t@);
    if toks.len() == 0 {
        proof {
            reveal_strlit("Empty command");
        }
        return invalid("Empty command");
    }
    if tok_is(&toks[0], "add") {
        if toks.len() < 2 {
            proof {
                reveal_strlit("Usage: add <name> [-w|-p] [amount] [price]");
            }
            return invalid("Usage: add <name> [-w|-p] [amount] [price]");
        }
        let name = string_of(&toks[1]);
        let mut watchlist = false;
        let mut portfolio = false;
        let mut owned: Option<i64> = None;
        let mut avg: Option<i64> = None;
        let mut i: usize = 2;
        loop
            invariant
                tv == toks@.map_values(|t: Vec<char>| t@),
                tv == tokens_of(input@),
                tv[0] == "add"@,
                2 <= i <= toks@.len() + 2,
                tv.len() == toks@.len(),
                tv.len() >= 2,
                name@ == tv[1],
                add_flags(tv, 2, false, false, None, None) == add_flags(
                    tv,
                    i as int,
                    watchlist,
                    portfolio,
                    as_int_opt(owned),
                    as_int_opt(avg),
                ),
            ensures
                i >= tv.len(),
                name@ == tv[1],
                tv == tokens_of(input@),
                tv[0] == "add"@,
                tv.len() >= 2,
                add_flags(tv, 2, false, false, None, None) == add_flags(
                    tv,
                    i as int,
                    watchlist,
                    portfolio,
                    as_int_opt(owned),
                    as_int_opt(avg),
                ),
            decreases toks@.len() - i,
        {
            if i >= toks.len() {
                break;
            }
            if tok_is(&toks[i], "-w") {
                watchlist = true;
                i = i + 1;
            } else if tok_is(&toks[i], "-p") || tok_is(&toks[i], "-wp") || tok_is(
                &toks[i],
                "-pw",
            ) {
                if !tok_is(&toks[i], "-p") {
                    watchlist = true;
                }
                portfolio = true;
                if toks.len() - i > 2 {
                    owned = crate::decimal::parse_amount(&toks[i + 1]);
                    avg = crate::decimal::parse_amount(&toks[i + 2]);
                    proof {
                        assert(as_int_opt(owned) == amount_of(tv[i as int + 1]));
                        assert(as_int_opt(avg) == amount_of(tv[i as int + 2]));
                    }
                    i = i + 3;
                } else {
                    i = i + 1;
                }
            } else {
                proof {
                    reveal_strlit("Invalid flag");
                }
                return invalid("Invalid flag");
            }
        }
        if !watchlist && !portfolio {
            watchlist = true;
        }
        Command::Add { name, watchlist, portfolio, owned, avg_buy_price: avg }
    } else if tok_is(&toks[0], "rm") {
        if toks.len() < 2 {
            proof {
                reveal_strlit("Usage: rm <name> [-w|-p|-wp]");
            }
            return invalid("Usage: rm <name> [-w|-p|-wp]");
        }
        let name = string_of(&toks[1]);
        let mut watchlist = false;
        let mut portfolio = false;
        let mut i: usize = 2;
        loop
            invariant
                tv == toks@.map_values(|t: Vec<char>| t@),
                tv == tokens_of(input@),
                tv[0] == "rm"@,
                !(tv[0] == "add"@),
                2 <= i <= toks@.len() + 1,
                tv.len() == toks@.len(),
                tv.len() >= 2,
                name@ == tv[1],
                rm_flags(tv, 2, false, false) == rm_flags(
                    tv,
                    i as int,
                    watchlist,
                    portfolio,
                ),
            ensures
                i >= tv.len(),
                name@ == tv[1],
                tv == tokens_of(input@),
                tv[0] == "rm"@,
                !(tv[0] == "add"@),
                tv.len() >= 2,
                rm_flags(tv, 2, false, false) == rm_flags(
                    tv,
                    i as int,
                    watchlist,
                    portfolio,
                ),
            decreases toks@.len() - i,
        {
            if i >= toks.len() {
                break;
            }
            if tok_is(&toks[i], "-w") {
                watchlist = true;
            } else if tok_is(&toks[i], "-p") {
                portfolio = true;
            } else if tok_is(&toks[i], "-wp") || tok_is(&toks[i], "-pw") {
                watchlist = true;
                portfolio = true;
            } else {
                proof {
                    reveal_strlit("Invalid flag");
                }
                return invalid("Invalid flag");
            }
            i = i + 1;
        }
        if !watchlist && !portfolio {
            watchlist = true;
            portfolio = true;
        }
        Command::Remove { name, watchlist, portfolio }
    } else {
        proof {
            reveal_strlit("Unknown command. Available commands: add, rm");
        }
        invalid("Unknown command. Available commands: add, rm")
    }
}

} // verus!
