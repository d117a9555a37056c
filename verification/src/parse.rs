//! The dictionary, and how a line of tokens becomes a list of items: each
//! token is resolved against the dictionary, and `:` and `;` turn the tokens
//! between them into a new entry of it.

use vstd::prelude::*;
use vstd::hash_map::StringHashMap;
use vstd::string::StringExecFns;
use crate::text::{literal_value, uppercase};
use crate::words::{ArithWord, Error, Exec, Item, StackWord, Symbol};

verus! {

/// Where the reader of a line stands.
#[derive(Debug, PartialEq, Eq, Clone, Copy, Structural)]
pub enum ParseState {
    /// Outside a definition.
    Normal,
    /// Just after `:`; the next token names the new word.
    CustomInit,
    /// Inside the body of a definition.
    Custom,
}

/// The reader of a line between two tokens.
pub struct Parser {
    /// The dictionary: the body of each defined word, by name.
    pub words: Map<Seq<char>, Seq<Item>>,
    pub state: ParseState,
    /// The name of the word whose body is being read.
    pub name: Seq<char>,
    /// The items read so far outside definitions.
    pub items: Seq<Item>,
}

/// What reading a line leaves behind.
pub struct Parsed {
    /// The dictionary, with every change that was made before the line
    /// ended or failed.
    pub words: Map<Seq<char>, Seq<Item>>,
    /// The items to carry out, or why the line is refused.
    pub result: Result<Seq<Item>, Error>,
}

/// The dictionary that a new interpreter starts with.
pub open spec fn builtin_words() -> Map<Seq<char>, Seq<Item>> {
    Map::<Seq<char>, Seq<Item>>::empty()
        .insert("DUP"@, seq![Item::Exec(Exec::Stack(StackWord::Dup))])
        .insert("DROP"@, seq![Item::Exec(Exec::Stack(StackWord::Drop))])
        .insert("SWAP"@, seq![Item::Exec(Exec::Stack(StackWord::Swap))])
        .insert("OVER"@, seq![Item::Exec(Exec::Stack(StackWord::Over))])
        .insert("+"@, seq![Item::Exec(Exec::Arith(ArithWord::Add))])
        .insert("-"@, seq![Item::Exec(Exec::Arith(ArithWord::Sub))])
        .insert("*"@, seq![Item::Exec(Exec::Arith(ArithWord::Mul))])
        .insert("/"@, seq![Item::Exec(Exec::Arith(ArithWord::Div))])
        .insert(":"@, seq![Item::Symbol(Symbol::Colon)])
        .insert(";"@, seq![Item::Symbol(Symbol::SemiColon)])
}

/// What `token` stands for: a number stands for itself, whatever the
/// dictionary holds under its text; any other token stands for the body
/// that the dictionary holds under its upper-case form.
pub open spec fn resolve(words: Map<Seq<char>, Seq<Item>>, token: Seq<char>) -> Result<
    Seq<Item>,
    Error,
> {
    match literal_value(token) {
        Some(v) => Ok(seq![Item::Exec(Exec::Value(v))]),
        None => if words.contains_key(uppercase(token)) {
            Ok(words[uppercase(token)])
        } else {
            Err(Error::UnknownWord)
        },
    }
}

/// The reader at the start of a line.
pub open spec fn start(words: Map<Seq<char>, Seq<Item>>) -> Parser {
    Parser { words, state: ParseState::Normal, name: Seq::empty(), items: Seq::empty() }
}

/// The reader after `token`, or why the token is refused.
///
/// Outside a definition a token that ends in `:` opens one, and any other
/// adds what it stands for to the items. The token after `:` names the new
/// word, unless it ends in a number: the word is entered under the
/// upper-case form of the token, with an empty body.
/// Inside the body a token that ends in `;` closes the definition, and any
/// other adds what it stands for, as the dictionary has it at that moment,
/// to the body.
pub open spec fn parse_token(p: Parser, token: Seq<char>) -> Result<Parser, Error> {
    let found = resolve(p.words, token);
    match p.state {
        ParseState::Normal => match found {
            Err(e) => Err(e),
            Ok(v) => if v.len() == 0 {
                Err(Error::InvalidWord)
            } else if v.last() is Symbol && v.last()->Symbol_0 is Colon {
                Ok(Parser { state: ParseState::CustomInit, ..p })
            } else {
                Ok(Parser { items: p.items + v, ..p })
            },
        },
        ParseState::CustomInit => if found is Ok && found->Ok_0.len() > 0
            && found->Ok_0.last() is Exec && found->Ok_0.last()->Exec_0 is Value {
            Err(Error::InvalidWord)
        } else {
            Ok(
                Parser {
                    words: p.words.insert(uppercase(token), Seq::empty()),
                    state: ParseState::Custom,
                    name: uppercase(token),
                    ..p
                },
            )
        },
        ParseState::Custom => match found {
            Err(e) => Err(e),
            Ok(v) => if v.len() == 0 {
                Err(Error::InvalidWord)
            } else if v.last() is Symbol && v.last()->Symbol_0 is SemiColon {
                Ok(Parser { state: ParseState::Normal, ..p })
            } else {
                Ok(Parser { words: p.words.insert(p.name, p.words[p.name] + v), ..p })
            },
        },
    }
}

/// What reading `tokens` from reader `p` on leaves behind. The first token
/// that is refused ends the reading; a line that ends inside a definition is
/// refused as an invalid word.
pub open spec fn parse_from(p: Parser, tokens: Seq<Seq<char>>) -> Parsed
    decreases tokens.len(),
{
    if tokens.len() == 0 {
        Parsed {
            words: p.words,
            result: if p.state is Normal {
                Ok(p.items)
            } else {
                Err(Error::InvalidWord)
            },
        }
    } else {
        match parse_token(p, tokens[0]) {
            Err(e) => Parsed { words: p.words, result: Err(e) },
            Ok(q) => parse_from(q, tokens.drop_first()),
        }
    }
}

/// What reading the tokens of a whole line leaves behind.
pub open spec fn parse(words: Map<Seq<char>, Seq<Item>>, tokens: Seq<Seq<char>>) -> Parsed {
    parse_from(start(words), tokens)
}

/// The dictionary that a table of words stands for.
pub open spec fn bodies(m: Map<Seq<char>, Vec<Item>>) -> Map<Seq<char>, Seq<Item>> {
    m.map_values(|b: Vec<Item>| b@)
}

/// Puts `body` under `name`, in place of what was there.
pub fn define(m: &mut StringHashMap<Vec<Item>>, name: &str, body: Vec<Item>)
    ensures
        bodies(final(m)@) == bodies(old(m)@).insert(name@, body@),
{
    m.insert(String::from_str(name), body);
}

/// The body that `m` holds under `name`, if any.
pub fn lookup(m: &StringHashMap<Vec<Item>>, name: &str) -> (r: Option<Vec<Item>>)
    ensures
        match r {
            Some(b) => bodies(m@).contains_key(name@) && bodies(m@)[name@] == b@,
            None => !bodies(m@).contains_key(name@),
        },
{
    match m.get(name) {
        Some(b) => Some(copy_items(b)),
        None => None,
    }
}

/// A copy of `v`.
pub fn copy_items(v: &Vec<Item>) -> (r: Vec<Item>)
    ensures
        r@ == v@,
{
    let mut out: Vec<Item> = Vec::new();
    append_items(&mut out, v);
    out
}

/// Appends the items of `more` to `v`.
pub fn append_items(v: &mut Vec<Item>, more: &Vec<Item>)
    ensures
        final(v)@ == old(v)@ + more@,
{
    let mut k: usize = 0;
    while k < more.len()
        invariant
            k <= more.len(),
            v@ == old(v)@ + more@.take(k as int),
        decreases more.len() - k,
    {
        v.push(more[k]);
        k += 1;
    }
    assert(more@.take(more.len() as int) == more@);
}

/// The body that holds `i` and nothing else.
pub fn single(i: Item) -> (r: Vec<Item>)
    ensures
        r@ == seq![i],
{
    let mut out: Vec<Item> = Vec::new();
    out.push(i);
    out
}

/// The table of the built-in words.
pub fn make_word_map() -> (m: StringHashMap<Vec<Item>>)
    ensures
        bodies(m@) == builtin_words(),
{
    let mut m: StringHashMap<Vec<Item>> = StringHashMap::new();
    assert(bodies(m@) == Map::<Seq<char>, Seq<Item>>::empty());
    define(&mut m, "DUP", single(Item::Exec(Exec::Stack(StackWord::Dup))));
    define(&mut m, "DROP", single(Item::Exec(Exec::Stack(StackWord::Drop))));
    define(&mut m, "SWAP", single(Item::Exec(Exec::Stack(StackWord::Swap))));
    define(&mut m, "OVER", single(Item::Exec(Exec::Stack(StackWord::Over))));
    define(&mut m, "+", single(Item::Exec(Exec::Arith(ArithWord::Add))));
    define(&mut m, "-", single(Item::Exec(Exec::Arith(ArithWord::Sub))));
    define(&mut m, "*", single(Item::Exec(Exec::Arith(ArithWord::Mul))));
    define(&mut m, "/", single(Item::Exec(Exec::Arith(ArithWord::Div))));
    define(&mut m, ":", single(Item::Symbol(Symbol::Colon)));
    define(&mut m, ";", single(Item::Symbol(Symbol::SemiColon)));
    m
}

/// The one name under which `token` may change the dictionary of reader
/// `p`: the name that the token gives after `:`, and inside a body the
/// name of the word that is being defined.
pub open spec fn touched_name(p: Parser, token: Seq<char>) -> Seq<char> {
    if p.state is CustomInit {
        uppercase(token)
    } else {
        p.name
    }
}

/// A definition is inlined when it is read, so a later definition cannot
/// reach into it: a token changes the dictionary under one name at most,
/// and outside a definition under none. Every other word keeps its body.
pub proof fn token_changes_one_word(p: Parser, token: Seq<char>, other: Seq<char>)
    requires
        parse_token(p, token) is Ok,
        p.state is Normal || other != touched_name(p, token),
    ensures
        parse_token(p, token)->Ok_0.words.contains_key(other) == p.words.contains_key(other),
        parse_token(p, token)->Ok_0.words[other] == p.words[other],
{
}

/// No word is ever forgotten: what the dictionary holds before a line is
/// read it holds after, whether the line is accepted or refused.
pub proof fn reading_keeps_every_name(p: Parser, tokens: Seq<Seq<char>>, name: Seq<char>)
    requires
        p.words.contains_key(name),
    ensures
        parse_from(p, tokens).words.contains_key(name),
    decreases tokens.len(),
{
    if tokens.len() > 0 {
        match parse_token(p, tokens[0]) {
            Err(_) => {},
            Ok(q) => {
                reading_keeps_every_name(q, tokens.drop_first(), name);
            },
        }
    }
}

/// A word is found under every spelling of its name: once the token after
/// `:` has been accepted, each token with the same upper-case form that is
/// not a number stands for the new word, whose body is still empty.
pub proof fn new_word_is_found(p: Parser, name: Seq<char>, token: Seq<char>)
    requires
        p.state is CustomInit,
        parse_token(p, name) is Ok,
        uppercase(token) == uppercase(name),
        literal_value(token) is None,
    ensures
        resolve(parse_token(p, name)->Ok_0.words, token) == Ok::<Seq<Item>, Error>(Seq::empty()),
{
}

} // verus!
