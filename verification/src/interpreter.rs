//! The interpreter: a dictionary and a stack, and the lines it evaluates.

use vstd::prelude::*;
use vstd::hash_map::StringHashMap;
use crate::machine::{eval_items, execute};
use crate::parse::{
    append_items, bodies, builtin_words, define, lookup, make_word_map, parse, parse_from,
    resolve, single, ParseState, Parser,
};
use crate::text::{
    blank_controls, parse_value, render, render_stack, texts, tokenize, tokens_of, uppercase,
};
use crate::words::{Error, Exec, ForthResult, Item, Symbol, Value};

verus! {

/// An interpreter.
pub struct Forth {
    word_map: StringHashMap<Vec<Item>>,
    stack: Vec<Value>,
}

/// What an interpreter holds.
pub struct Machine {
    /// The dictionary: the body of each defined word, by name.
    pub words: Map<Seq<char>, Seq<Item>>,
    /// The stack; its top is the last element.
    pub stack: Seq<Value>,
}

/// An interpreter after a line, with the verdict on the line.
pub struct Outcome {
    pub machine: Machine,
    pub result: ForthResult,
}

/// What evaluating `line` makes of `m`. The line is read first, and the
/// dictionary keeps what the reading did to it even where the line is then
/// refused; a line that was read is carried out on the stack, which keeps
/// what was done to it before a failure.
pub open spec fn run_line(m: Machine, line: Seq<char>) -> Outcome {
    let read = parse(m.words, tokens_of(line));
    match read.result {
        Err(e) => Outcome { machine: Machine { words: read.words, stack: m.stack }, result: Err(e) },
        Ok(items) => {
            let run = execute(items, m.stack);
            Outcome { machine: Machine { words: read.words, stack: run.stack }, result: run.result }
        },
    }
}

impl View for Forth {
    type V = Machine;

    closed spec fn view(&self) -> Machine {
        Machine { words: bodies(self.word_map@), stack: self.stack@ }
    }
}

impl Forth {
    /// An interpreter with the built-in words and an empty stack.
    pub fn new() -> (r: Forth)
        ensures
            r@.words == builtin_words(),
            r@.stack == Seq::<Value>::empty(),
    {
        Forth { word_map: make_word_map(), stack: Vec::new() }
    }

    /// The stack as text.
    pub fn format_stack(&self) -> (r: String)
        ensures
            r@ == render(self@.stack),
    {
        render_stack(&self.stack)
    }

    /// Evaluates one line.
    pub fn eval(&mut self, input: &str) -> (r: ForthResult)
        ensures
            final(self)@ == run_line(old(self)@, input@).machine,
            r == run_line(old(self)@, input@).result,
    {
        match self.input_parse(input) {
            Ok(items) => eval_items(&mut self.stack, &items),
            Err(e) => Err(e),
        }
    }

    /// Reads one line: returns the items to carry out and enters the
    /// definitions of the line in the dictionary.
    pub fn input_parse(&mut self, input: &str) -> (r: Result<Vec<Item>, Error>)
        ensures
            final(self)@.stack == old(self)@.stack,
            final(self)@.words == parse(old(self)@.words, tokens_of(input@)).words,
            match r {
                Ok(items) => parse(old(self)@.words, tokens_of(input@)).result == Ok::<
                    Seq<Item>,
                    Error,
                >(items@),
                Err(e) => parse(old(self)@.words, tokens_of(input@)).result == Err::<
                    Seq<Item>,
                    Error,
                >(e),
            },
    {
        let mut items: Vec<Item> = Vec::new();
        let mut state = ParseState::Normal;
        let mut curr_custom_word = String::new();
        let tokens = tokenize(input);
        let ghost all = texts(tokens@);
        let ghost goal = parse(old(self)@.words, all);
        let mut k: usize = 0;
        assert(all.skip(0) == all);
        while k < tokens.len()
            invariant
                k <= tokens.len(),
                all == texts(tokens@),
                goal == parse(old(self)@.words, tokens_of(input@)),
                self.stack@ == old(self).stack@,
                state is Custom ==> self@.words.contains_key(curr_custom_word@),
                goal == parse_from(
                    Parser {
                        words: self@.words,
                        state,
                        name: curr_custom_word@,
                        items: items@,
                    },
                    all.skip(k as int),
                ),
            decreases tokens.len() - k,
        {
            assert(all.skip(k as int).drop_first() == all.skip(k + 1));
            assert(all.skip(k as int)[0] == tokens[k as int]@);
            let token = tokens[k].as_str();
            match state {
                ParseState::Normal => {
                    match self.str_to_item(token) {
                        Ok(v) => {
                            if v.len() == 0 {
                                return Err(Error::InvalidWord);
                            }
                            match v[v.len() - 1] {
                                Item::Symbol(Symbol::Colon) => {
                                    state = ParseState::CustomInit;
                                },
                                _ => {
                                    append_items(&mut items, &v);
                                },
                            }
                        },
                        Err(e) => {
                            return Err(e);
                        },
                    }
                },
                ParseState::CustomInit => {
                    match self.str_to_item(token) {
                        Ok(v) => {
                            if v.len() > 0 {
                                match v[v.len() - 1] {
                                    Item::Exec(Exec::Value(_)) => {
                                        return Err(Error::InvalidWord);
                                    },
                                    _ => (),
                                }
                            }
                        },
                        Err(_) => (),
                    }
                    curr_custom_word = token.to_uppercase();
                    define(&mut self.word_map, curr_custom_word.as_str(), Vec::new());
                    state = ParseState::Custom;
                },
                ParseState::Custom => {
                    match self.str_to_item(token) {
                        Ok(v) => {
                            if v.len() == 0 {
                                return Err(Error::InvalidWord);
                            }
                            match v[v.len() - 1] {
                                Item::Symbol(Symbol::SemiColon) => {
                                    state = ParseState::Normal;
                                },
                                _ => {
                                    assert(self@.words.contains_key(curr_custom_word@));
                                    match lookup(&self.word_map, curr_custom_word.as_str()) {
                                        Some(mut body) => {
                                            append_items(&mut body, &v);
                                            define(
                                                &mut self.word_map,
                                                curr_custom_word.as_str(),
                                                body,
                                            );
                                        },
                                        None => (),
                                    }
                                },
                            }
                        },
                        Err(e) => {
                            return Err(e);
                        },
                    }
                },
            }
            k += 1;
        }
        match state {
            ParseState::Normal => Ok(items),
            _ => Err(Error::InvalidWord),
        }
    }

    /// What one token stands for: a number, or the body of a word.
    pub fn str_to_item(&self, s: &str) -> (r: Result<Vec<Item>, Error>)
        ensures
            match r {
                Ok(v) => resolve(self@.words, s@) == Ok::<Seq<Item>, Error>(v@),
                Err(e) => resolve(self@.words, s@) == Err::<Seq<Item>, Error>(e),
            },
    {
        match parse_value(s) {
            Some(v) => Ok(single(Item::Exec(Exec::Value(v)))),
            None => {
                let upper = s.to_uppercase();
                match lookup(&self.word_map, upper.as_str()) {
                    Some(w) => Ok(w),
                    None => Err(Error::UnknownWord),
                }
            },
        }
    }
}

/// The text of the stack is settled by the stack: two texts that both
/// keep the promise of `format_stack` for one interpreter are one text, so
/// asking twice with no line evaluated in between gives the same answer.
pub proof fn format_stack_repeats(f: Forth, first: String, second: String)
    requires
        first@ == render(f@.stack),
        second@ == render(f@.stack),
    ensures
        first@ == second@,
{
}

/// Case does not matter: two lines that are the same once control
/// characters are blanked and the text is put in upper case do the same to
/// every interpreter.
pub proof fn lines_alike_in_upper_case_run_alike(m: Machine, a: Seq<char>, b: Seq<char>)
    requires
        uppercase(blank_controls(a)) == uppercase(blank_controls(b)),
    ensures
        run_line(m, a) == run_line(m, b),
{
}

/// A line that is refused while it is read is not carried out: the stack
/// stays as it was, and the line's verdict is the reader's.
pub proof fn refused_line_keeps_stack(m: Machine, line: Seq<char>)
    requires
        parse(m.words, tokens_of(line)).result is Err,
    ensures
        run_line(m, line).machine.stack == m.stack,
        run_line(m, line).result == Err::<(), Error>(
            parse(m.words, tokens_of(line)).result->Err_0,
        ),
{
}

} // verus!
