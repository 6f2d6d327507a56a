//! Script sources.

use crate::text;
use vstd::prelude::*;
use vstd::string::*;

verus! {

/// A script: the body of a function that returns an object with the script's methods.
#[derive(Debug)]
pub struct Script {
    pub source: String,
    /// For messages only.
    pub name: String,
}

impl Script {
    pub fn new(source: &str, name: &str) -> (result: Self)
        ensures
            result.source@ == source@,
            result.name@ == name@,
    {
        Script { source: source.to_owned(), name: name.to_owned() }
    }

    pub fn source(&self) -> (result: &str)
        ensures
            result@ == self.source@,
    {
        self.source.as_str()
    }

    pub fn name(&self) -> (result: &str)
        ensures
            result@ == self.name@,
    {
        self.name.as_str()
    }

    /// The source as the body of a function, on lines of its own: a comment on its last line does
    /// not reach the closing bracket.
    pub open spec fn factory(self) -> Seq<char> {
        "(function(){\n"@ + self.source@ + "\n})"@
    }

    /// The source as the body of a function, which makes one instance each time it is called.
    pub fn as_factory(&self) -> (result: String)
        ensures
            result@ == self.factory(),
    {
        let mut result = "(function(){\n".to_owned();
        result.append(self.source.as_str());
        result.append("\n})");
        result
    }
}

impl Clone for Script {
    fn clone(&self) -> (result: Self)
        ensures
            result == *self,
    {
        Script { source: self.source.clone(), name: self.name.clone() }
    }
}

impl Default for Script {
    /// Nothing.
    fn default() -> (result: Self)
        ensures
            result.source@ == Seq::<char>::empty(),
            result.name@ == Seq::<char>::empty(),
    {
        Script { source: String::new(), name: String::new() }
    }
}

/// An expression as the value of a function. The closing bracket stands on a line of its own: a
/// comment at the end of the expression does not reach it.
pub open spec fn question(expression: Seq<char>) -> Seq<char> {
    "(function(){ return ("@ + expression + "\n); })"@
}

/// An expression as the value of a function, which works it out when it is called.
pub fn as_question(expression: &str) -> (result: String)
    ensures
        result@ == question(expression@),
{
    let mut result = "(function(){ return (".to_owned();
    result.append(expression);
    result.append("\n); })");
    result
}

/// Makes scripts out of files.
#[derive(Debug, Clone, Copy, Default)]
pub struct ScriptLoader;

impl ScriptLoader {
    /// The endings of the files that it takes.
    pub fn extensions(&self) -> (result: Vec<&'static str>)
        ensures
            result@.len() == 1,
            result@[0]@ == "js"@,
    {
        let mut result: Vec<&'static str> = Vec::new();
        result.push("js");
        result
    }

    /// A script out of the bytes of a file and the file's name. Bytes that are no text give none.
    pub fn load(&self, bytes: Vec<u8>, file_name: &str) -> (result: Option<Script>)
        ensures
            result is Some <==> vstd::utf8::valid_utf8(bytes@),
            result matches Some(script) ==> script.source@ == vstd::utf8::decode_utf8(bytes@)
                && script.name@ == file_name@,
    {
        match text::from_utf8(bytes) {
            Some(source) => Some(Script { source, name: file_name.to_owned() }),
            None => None,
        }
    }
}

/// A path in the form in which paths are compared: with `/` between its parts.
pub open spec fn normal(path: Seq<char>) -> Seq<char> {
    Seq::new(
        path.len(),
        |i: int|
            if path[i] == '\\' {
                '/'
            } else {
                path[i]
            },
    )
}

/// Paths written with `\` and with `/` name the same file.
pub fn normalize(path: &str) -> (result: String)
    ensures
        result@ == normal(path@),
{
    let mut result = String::new();
    for c in it: path.chars()
        invariant
            result@ == normal(path@).take(it.index() as int),
            it.seq() == path@,
    {
        result.push(
            if c == '\\' {
                '/'
            } else {
                c
            },
        );
        assert(normal(path@).take(it.index() as int + 1) =~= normal(path@).take(
            it.index() as int,
        ).push(normal(path@)[it.index() as int]));
    }
    assert(normal(path@).take(path@.len() as int) =~= normal(path@));
    result
}

/// A path in that form stays as it is, and the two ways of writing one path meet in it.
pub proof fn lemma_normal_is_idempotent(path: Seq<char>)
    ensures
        normal(normal(path)) == normal(path),
        forall|i: int| 0 <= i < path.len() ==> #[trigger] normal(path)[i] != '\\',
{
    assert(normal(normal(path)) =~= normal(path));
}

} // verus!
