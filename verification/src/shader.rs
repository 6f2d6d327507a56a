//! Shader sources: conditional compilation, validation and reflection.

pub mod preprocess;

use crate::numbers::Double;
use crate::text;
use vstd::prelude::*;
use vstd::string::*;

verus! {

/// A stage of the pipeline.
#[derive(Debug, Clone, Copy, PartialEq, Eq, Structural)]
pub enum ShaderStage {
    Vertex,
    Fragment,
    Compute,
    /// Any other stage; the engine does not use them.
    Other,
}

/// What can be wrong with a shader.
#[derive(Debug)]
pub enum ShaderError {
    /// A directive of the conditional compilation.
    Preprocess(String),
    /// The syntax.
    Parse(String),
    /// The types or the resources.
    Validation(String),
}

impl ShaderError {
    /// The error in words.
    pub fn message(&self) -> (result: String)
        ensures
            result@ == match self {
                ShaderError::Preprocess(message) => "条件编译失败："@ + message@,
                ShaderError::Parse(message) => "WGSL 解析失败："@ + message@,
                ShaderError::Validation(message) => "WGSL 校验失败："@ + message@,
            },
    {
        match self {
            ShaderError::Preprocess(message) => text::joined("条件编译失败：", message.as_str()),
            ShaderError::Parse(message) => text::joined("WGSL 解析失败：", message.as_str()),
            ShaderError::Validation(message) => text::joined("WGSL 校验失败：", message.as_str()),
        }
    }
}

/// What `naga::front::wgsl::parse_str` makes of a source: its entry points, each with its name and
/// the number of its stage, or the report of what is wrong with the syntax.
pub uninterp spec fn wgsl_parsed(source: Seq<char>) -> Result<Seq<(Seq<char>, u8)>, Seq<char>>;

/// What `naga::valid::Validator::validate`, with all its checks, reports as wrong with a source
/// whose syntax is right.
pub uninterp spec fn wgsl_fault(source: Seq<char>) -> Option<Seq<char>>;

/// Names and stage numbers, as plain values.
pub open spec fn plain_entries(entries: Seq<(String, u8)>) -> Seq<(Seq<char>, u8)> {
    Seq::new(entries.len(), |i: int| (entries[i].0@, entries[i].1))
}

/// `naga::front::wgsl::parse_str` parses a source. The result holds the module's entry points in
/// its order, with their stages numbered in the order in which `naga::ShaderStage` lists them; or,
/// if the source does not parse, the report that `emit_to_string` makes of the error. It depends on
/// the source alone; what it is, is left to naga.
#[verifier::external_body]
fn parse_wgsl(source: &str) -> (result: Result<Vec<(String, u8)>, String>)
    ensures
        match wgsl_parsed(source@) {
            Ok(entries) => result matches Ok(list) && plain_entries(list@) == entries,
            Err(report) => result matches Err(message) && message@ == report,
        },
{
    let module = naga::front::wgsl::parse_str(source).map_err(|e| e.emit_to_string(source))?;
    Ok(module.entry_points.iter().map(|ep| (ep.name.clone(), ep.stage as u8)).collect())
}

/// `naga::valid::Validator::validate`, with every check on and the default capabilities, looks for
/// what parsing does not find. `None` when it finds nothing, else the report that `emit_to_string`
/// makes of its error. It depends on the source alone; what it is, is left to naga.
#[verifier::external_body]
fn validate_wgsl(source: &str) -> (result: Option<String>)
    requires
        wgsl_parsed(source@) is Ok,
    ensures
        match wgsl_fault(source@) {
            None => result is None,
            Some(report) => result matches Some(message) && message@ == report,
        },
{
    let module = naga::front::wgsl::parse_str(source).ok()?;
    let flags = naga::valid::ValidationFlags::all();
    let mut validator =
        naga::valid::Validator::new(flags, naga::valid::Capabilities::default());
    validator.validate(&module).err().map(|e| e.emit_to_string(source))
}

/// What `Uuid::new_v4` may give, as a number.
pub uninterp spec fn may_draw(id: u128) -> bool;

/// A number that says of itself that it was drawn by chance: its fields for the version and the
/// variant are 4 and 2.
pub open spec fn says_random(id: u128) -> bool {
    (id >> 76) & 0xf == 4 && (id >> 62) & 3 == 2
}

/// `Uuid::new_v4` draws an id by chance, and `Uuid::as_u128` gives it as a number. Its fields for
/// the version and the variant are set; which id it is is not claimed.
#[verifier::external_body]
fn draw() -> (result: u128)
    ensures
        may_draw(result),
        says_random(result),
{
    uuid::Uuid::new_v4().as_u128()
}

/// The stage of a number, as naga counts them.
pub open spec fn stage_of(number: u8) -> ShaderStage {
    if number == 0 {
        ShaderStage::Vertex
    } else if number == 3 {
        ShaderStage::Fragment
    } else if number == 4 {
        ShaderStage::Compute
    } else {
        ShaderStage::Other
    }
}

/// A shader.
#[derive(Debug)]
pub struct Shader {
    /// Tells shaders apart; what is cached for one goes by it.
    pub id: u128,
    pub source: String,
    pub entry_points: Vec<(String, ShaderStage)>,
    /// Values for the source's `override`s.
    pub constants: Vec<(String, Double)>,
}

impl Clone for Shader {
    /// The copy has the same number.
    fn clone(&self) -> (result: Self)
        ensures
            result.id == self.id,
            result.source == self.source,
            result.entry_points@ == self.entry_points@,
            result.constants@ == self.constants@,
    {
        let mut entry_points: Vec<(String, ShaderStage)> = Vec::new();
        let mut i: usize = 0;
        while i < self.entry_points.len()
            invariant
                i <= self.entry_points@.len(),
                entry_points@ == self.entry_points@.take(i as int),
            decreases self.entry_points@.len() - i,
        {
            entry_points.push((self.entry_points[i].0.clone(), self.entry_points[i].1));
            i += 1;
            assert(self.entry_points@.take(i as int) =~= self.entry_points@.take(i - 1).push(
                self.entry_points@[i - 1],
            ));
        }
        assert(self.entry_points@.take(i as int) =~= self.entry_points@);
        let mut constants: Vec<(String, Double)> = Vec::new();
        let mut i: usize = 0;
        while i < self.constants.len()
            invariant
                i <= self.constants@.len(),
                constants@ == self.constants@.take(i as int),
            decreases self.constants@.len() - i,
        {
            constants.push((self.constants[i].0.clone(), self.constants[i].1));
            i += 1;
            assert(self.constants@.take(i as int) =~= self.constants@.take(i - 1).push(
                self.constants@[i - 1],
            ));
        }
        assert(self.constants@.take(i as int) =~= self.constants@);
        Shader { id: self.id, source: self.source.clone(), entry_points, constants }
    }
}

/// The entry points of a shader are those that were found, with their stages.
pub open spec fn reflects(
    shown: Seq<(String, ShaderStage)>,
    found: Seq<(Seq<char>, u8)>,
) -> bool {
    &&& shown.len() == found.len()
    &&& forall|i: int|
        0 <= i < shown.len() ==> (#[trigger] shown[i]).0@ == found[i].0 && shown[i].1 == stage_of(
            found[i].1,
        )
}

/// An id that was drawn by chance.
fn new_id() -> (result: u128)
    ensures
        may_draw(result),
        says_random(result),
{
    draw()
}

impl Shader {
    /// A shader out of what was found in its source.
    pub fn from_parts(id: u128, source: String, entries: Vec<(String, u8)>) -> (result: Self)
        ensures
            result.id == id,
            result.source == source,
            reflects(result.entry_points@, plain_entries(entries@)),
            result.constants@ == Seq::<(String, Double)>::empty(),
    {
        let mut entry_points: Vec<(String, ShaderStage)> = Vec::new();
        let mut i: usize = 0;
        while i < entries.len()
            invariant
                i <= entries@.len(),
                entry_points@.len() == i,
                forall|j: int|
                    0 <= j < i ==> (#[trigger] entry_points@[j]).0@ == plain_entries(entries@)[j].0
                        && entry_points@[j].1 == stage_of(plain_entries(entries@)[j].1),
            decreases entries@.len() - i,
        {
            let number: u8 = entries[i].1;
            let stage = if number == 0 {
                ShaderStage::Vertex
            } else if number == 3 {
                ShaderStage::Fragment
            } else if number == 4 {
                ShaderStage::Compute
            } else {
                ShaderStage::Other
            };
            entry_points.push((entries[i].0.clone(), stage));
            i += 1;
        }
        Shader { id, source, entry_points, constants: Vec::new() }
    }

    /// What is made of a source once naga has spoken: `parsed` is what it made of the syntax, and
    /// `fault` what it found wrong otherwise.
    pub fn judged(
        id: u128,
        source: String,
        parsed: Result<Vec<(String, u8)>, String>,
        fault: Option<String>,
    ) -> (result: Result<Self, ShaderError>)
        ensures
            match (parsed, fault) {
                (Err(report), _) => result matches Err(ShaderError::Parse(message)) && message
                    == report,
                (Ok(_), Some(report)) => result matches Err(ShaderError::Validation(message))
                    && message == report,
                (Ok(entries), None) => result matches Ok(shader) && {
                    &&& shader.id == id
                    &&& shader.source == source
                    &&& reflects(shader.entry_points@, plain_entries(entries@))
                    &&& shader.constants@ == Seq::<(String, Double)>::empty()
                },
            },
    {
        match parsed {
            Err(report) => Err(ShaderError::Parse(report)),
            Ok(entries) => match fault {
                Some(report) => Err(ShaderError::Validation(report)),
                None => Ok(Shader::from_parts(id, source, entries)),
            },
        }
    }

    /// What naga says of a source decides what becomes of it.
    pub open spec fn validated(result: Result<Shader, ShaderError>, source: Seq<char>) -> bool {
        match wgsl_parsed(source) {
            Err(report) => result matches Err(ShaderError::Parse(message)) && message@ == report,
            Ok(entries) => match wgsl_fault(source) {
                Some(report) => result matches Err(ShaderError::Validation(message)) && message@
                    == report,
                None => result matches Ok(shader) && {
                    &&& may_draw(shader.id)
                    &&& shader.source@ == source
                    &&& reflects(shader.entry_points@, entries)
                    &&& shader.constants@ == Seq::<(String, Double)>::empty()
                },
            },
        }
    }

    /// Parses and validates a source. What is wrong with a shader is found here, and not when it
    /// is drawn with.
    pub fn from_wgsl(source: &str) -> (result: Result<Self, ShaderError>)
        ensures
            Self::validated(result, source@),
    {
        let parsed = parse_wgsl(source);
        let fault = if parsed.is_ok() {
            validate_wgsl(source)
        } else {
            None
        };
        Shader::judged(new_id(), source.to_owned(), parsed, fault)
    }

    /// Conditional compilation first, then as [`Shader::from_wgsl`]. Each set of names gives a
    /// shader of its own.
    pub fn from_wgsl_with_defs(source: &str, defs: &[&str]) -> (result: Result<Self, ShaderError>)
        ensures
            match preprocess::processed(source@, defs@) {
                Err(message) => result matches Err(ShaderError::Preprocess(text)) && text@
                    == message,
                Ok(out) => Self::validated(result, out),
            },
    {
        match preprocess::preprocess(source, defs) {
            Ok(out) => Shader::from_wgsl(out.as_str()),
            Err(error) => Err(error),
        }
    }

    /// A piece of a shader, which cannot be validated on its own. Its id is drawn by chance.
    pub fn snippet(source: &str) -> (result: Self)
        ensures
            may_draw(result.id),
            result.source@ == source@,
            result.entry_points@ == Seq::<(String, ShaderStage)>::empty(),
            result.constants@ == Seq::<(String, Double)>::empty(),
    {
        Shader::snippet_as(new_id(), source)
    }

    /// A piece of a shader with that id.
    pub fn snippet_as(id: u128, source: &str) -> (result: Self)
        ensures
            result.id == id,
            result.source@ == source@,
            result.entry_points@ == Seq::<(String, ShaderStage)>::empty(),
            result.constants@ == Seq::<(String, Double)>::empty(),
    {
        Shader {
            id,
            source: source.to_owned(),
            entry_points: Vec::new(),
            constants: Vec::new(),
        }
    }

    /// Conditional compilation first, then as [`Shader::snippet`].
    pub fn snippet_with_defs(source: &str, defs: &[&str]) -> (result: Result<Self, ShaderError>)
        ensures
            match preprocess::processed(source@, defs@) {
                Err(message) => result matches Err(ShaderError::Preprocess(text)) && text@
                    == message,
                Ok(out) => result matches Ok(shader) && {
                    &&& may_draw(shader.id)
                    &&& shader.source@ == out
                    &&& shader.entry_points@ == Seq::<(String, ShaderStage)>::empty()
                    &&& shader.constants@ == Seq::<(String, Double)>::empty()
                },
            },
    {
        match preprocess::preprocess(source, defs) {
            Ok(out) => Ok(Shader::snippet(out.as_str())),
            Err(error) => Err(error),
        }
    }

    pub fn source(&self) -> (result: &str)
        ensures
            result@ == self.source@,
    {
        self.source.as_str()
    }

    /// The first constant of that name stands at `at`.
    pub open spec fn constant_at(constants: Seq<(String, Double)>, name: Seq<char>, at: int) -> bool {
        &&& 0 <= at < constants.len()
        &&& constants[at].0@ == name
        &&& forall|j: int| 0 <= j < at ==> (#[trigger] constants[j]).0@ != name
    }

    /// `constants` with one of them set: one that was set before gets the new value in its old
    /// place, any other stands behind the rest.
    pub open spec fn constant_set(
        constants: Seq<(String, Double)>,
        name: Seq<char>,
        value: Double,
        after: Seq<(String, Double)>,
    ) -> bool {
        &&& forall|at: int| #[trigger]
            Self::constant_at(constants, name, at) ==> after == constants.update(
                at,
                (constants[at].0, value),
            )
        &&& (forall|at: int| !Self::constant_at(constants, name, at)) ==> {
            &&& after.len() == constants.len() + 1
            &&& after.drop_last() == constants
            &&& after.last().0@ == name
            &&& after.last().1 == value
        }
    }

    /// The same shader with a constant set. Its id is drawn anew, so that two variants do not share
    /// what is cached for one of them.
    pub fn with_constant(self, name: &str, value: Double) -> (result: Self)
        ensures
            may_draw(result.id),
            result.source == self.source,
            result.entry_points == self.entry_points,
            Self::constant_set(self.constants@, name@, value, result.constants@),
    {
        self.variant(new_id(), name, value)
    }

    /// The same shader with a constant set, and with that id.
    pub fn variant(self, id: u128, name: &str, value: Double) -> (result: Self)
        ensures
            result.id == id,
            result.source == self.source,
            result.entry_points == self.entry_points,
            Self::constant_set(self.constants@, name@, value, result.constants@),
    {
        let mut result = self;
        let wanted = name.to_owned();
        let ghost before = result.constants@;
        result.id = id;
        let mut i: usize = 0;
        while i < result.constants.len()
            invariant
                i <= result.constants@.len(),
                result.constants@ == before,
                wanted@ == name@,
                forall|j: int| 0 <= j < i ==> (#[trigger] before[j]).0@ != name@,
                result.id == id,
                result.source == self.source,
                result.entry_points == self.entry_points,
                before == self.constants@,
            decreases result.constants@.len() - i,
        {
            if result.constants[i].0 == wanted {
                let key = result.constants[i].0.clone();
                result.constants.set(i, (key, value));
                assert(Self::constant_at(before, name@, i as int));
                assert forall|at: int| #[trigger] Self::constant_at(before, name@, at) implies at
                    == i by {}
                return result;
            }
            i += 1;
        }
        result.constants.push((wanted, value));
        assert(result.constants@.drop_last() =~= before);
        result
    }

    pub fn constants(&self) -> (result: &Vec<(String, Double)>)
        ensures
            *result == self.constants,
    {
        &self.constants
    }

    /// The constants in the form that pipelines are made with.
    pub fn constant_overrides(&self) -> (result: Vec<(&str, Double)>)
        ensures
            result@.len() == self.constants@.len(),
            forall|i: int|
                0 <= i < result@.len() ==> (#[trigger] result@[i]).0@ == self.constants@[i].0@
                    && result@[i].1 == self.constants@[i].1,
    {
        let mut result: Vec<(&str, Double)> = Vec::new();
        let mut i: usize = 0;
        while i < self.constants.len()
            invariant
                i <= self.constants@.len(),
                result@.len() == i,
                forall|j: int|
                    0 <= j < i ==> (#[trigger] result@[j]).0@ == self.constants@[j].0@
                        && result@[j].1 == self.constants@[j].1,
            decreases self.constants@.len() - i,
        {
            result.push((self.constants[i].0.as_str(), self.constants[i].1));
            i += 1;
        }
        result
    }

    pub fn id(&self) -> (result: u128)
        ensures
            result == self.id,
    {
        self.id
    }

    pub fn entry_points(&self) -> (result: &Vec<(String, ShaderStage)>)
        ensures
            *result == self.entry_points,
    {
        &self.entry_points
    }

    /// The name of the first entry point of a stage.
    pub open spec fn first_entry(
        entries: Seq<(String, ShaderStage)>,
        stage: ShaderStage,
        at: int,
    ) -> bool {
        &&& 0 <= at < entries.len()
        &&& entries[at].1 == stage
        &&& forall|j: int| 0 <= j < at ==> (#[trigger] entries[j]).1 != stage
    }

    /// The name of the first entry point of a stage.
    pub fn entry_point(&self, stage: ShaderStage) -> (result: Option<&str>)
        ensures
            match result {
                Some(name) => exists|at: int|
                    Self::first_entry(self.entry_points@, stage, at) && name@
                        == self.entry_points@[at].0@,
                None => forall|j: int|
                    0 <= j < self.entry_points@.len() ==> (#[trigger] self.entry_points@[j]).1
                        != stage,
            },
    {
        let mut i: usize = 0;
        while i < self.entry_points.len()
            invariant
                i <= self.entry_points@.len(),
                forall|j: int| 0 <= j < i ==> (#[trigger] self.entry_points@[j]).1 != stage,
            decreases self.entry_points@.len() - i,
        {
            if self.entry_points[i].1 == stage {
                assert(Self::first_entry(self.entry_points@, stage, i as int));
                return Some(self.entry_points[i].0.as_str());
            }
            i += 1;
        }
        None
    }

    pub fn vertex_entry(&self) -> (result: Option<&str>)
        ensures
            match result {
                Some(name) => exists|at: int|
                    Self::first_entry(self.entry_points@, ShaderStage::Vertex, at) && name@
                        == self.entry_points@[at].0@,
                None => forall|j: int|
                    0 <= j < self.entry_points@.len() ==> (#[trigger] self.entry_points@[j]).1
                        != ShaderStage::Vertex,
            },
    {
        self.entry_point(ShaderStage::Vertex)
    }

    pub fn fragment_entry(&self) -> (result: Option<&str>)
        ensures
            match result {
                Some(name) => exists|at: int|
                    Self::first_entry(self.entry_points@, ShaderStage::Fragment, at) && name@
                        == self.entry_points@[at].0@,
                None => forall|j: int|
                    0 <= j < self.entry_points@.len() ==> (#[trigger] self.entry_points@[j]).1
                        != ShaderStage::Fragment,
            },
    {
        self.entry_point(ShaderStage::Fragment)
    }
}

/// What can go wrong with a file that is meant to be a shader.
#[derive(Debug)]
pub enum ShaderLoadError {
    /// It is no text.
    NotText,
    /// It is no shader.
    Shader(ShaderError),
}

/// Makes shaders out of files.
#[derive(Debug, Clone, Copy, Default)]
pub struct ShaderLoader;

impl ShaderLoader {
    /// The endings of the files that it takes.
    pub fn extensions(&self) -> (result: Vec<&'static str>)
        ensures
            result@.len() == 1,
            result@[0]@ == "wgsl"@,
    {
        let mut result: Vec<&'static str> = Vec::new();
        result.push("wgsl");
        result
    }

    /// A shader out of the bytes of a file.
    pub fn load(&self, bytes: Vec<u8>) -> (result: Result<Shader, ShaderLoadError>)
        ensures
            !vstd::utf8::valid_utf8(bytes@) ==> result matches Err(ShaderLoadError::NotText),
            vstd::utf8::valid_utf8(bytes@) ==> match result {
                Ok(shader) => Shader::validated(Ok(shader), vstd::utf8::decode_utf8(bytes@)),
                Err(ShaderLoadError::Shader(error)) => Shader::validated(
                    Err(error),
                    vstd::utf8::decode_utf8(bytes@),
                ),
                Err(ShaderLoadError::NotText) => false,
            },
    {
        match text::from_utf8(bytes) {
            None => Err(ShaderLoadError::NotText),
            Some(source) => match Shader::from_wgsl(source.as_str()) {
                Ok(shader) => Ok(shader),
                Err(error) => Err(ShaderLoadError::Shader(error)),
            },
        }
    }
}

/// The stages that the engine uses have their own numbers, and no other number stands for them.
pub proof fn lemma_stages_are_told_apart(number: u8)
    ensures
        stage_of(0) == ShaderStage::Vertex,
        stage_of(3) == ShaderStage::Fragment,
        stage_of(4) == ShaderStage::Compute,
        number != 0 && number != 3 && number != 4 ==> stage_of(number) == ShaderStage::Other,
{
}

/// A shader shows every entry point that was found, in order, under its own name and for its own
/// stage.
pub proof fn lemma_entry_points_are_shown(
    shown: Seq<(String, ShaderStage)>,
    found: Seq<(Seq<char>, u8)>,
    i: int,
)
    requires
        reflects(shown, found),
        0 <= i < found.len(),
    ensures
        shown.len() == found.len(),
        shown[i].0@ == found[i].0,
        found[i].1 == 0 ==> shown[i].1 == ShaderStage::Vertex,
        found[i].1 == 3 ==> shown[i].1 == ShaderStage::Fragment,
        found[i].1 == 4 ==> shown[i].1 == ShaderStage::Compute,
{
}

/// A source whose syntax is wrong is refused for that, one that parses but is not valid for that, and
/// one that is right in both gives a shader of that very source, with all its entry points and no
/// constants.
pub proof fn lemma_source_is_judged(result: Result<Shader, ShaderError>, source: Seq<char>)
    requires
        Shader::validated(result, source),
    ensures
        wgsl_parsed(source) is Err <==> result matches Err(ShaderError::Parse(_)),
        wgsl_parsed(source) is Ok && wgsl_fault(source) is Some <==> result matches Err(
            ShaderError::Validation(_),
        ),
        wgsl_parsed(source) is Ok && wgsl_fault(source) is None <==> result is Ok,
        result matches Ok(shader) ==> {
            &&& shader.source@ == source
            &&& shader.entry_points@.len() == wgsl_parsed(source)->Ok_0.len()
            &&& shader.constants@.len() == 0
        },
        result matches Err(ShaderError::Parse(message)) ==> message@ == wgsl_parsed(source)->Err_0,
        result matches Err(ShaderError::Validation(message)) ==> message@ == wgsl_fault(source)->0,
{
}

/// After a constant was set, the first constant of its name has the value that it was set to, and all
/// others have the names and values that they had, in their order. There is one more only if none had
/// the name.
pub proof fn lemma_constant_is_set(
    constants: Seq<(String, Double)>,
    name: Seq<char>,
    value: Double,
    after: Seq<(String, Double)>,
)
    requires
        Shader::constant_set(constants, name, value, after),
    ensures
        exists|at: int|
            {
                &&& 0 <= at < after.len()
                &&& (#[trigger] after[at]).0@ == name
                &&& after[at].1 == value
                &&& forall|j: int| 0 <= j < at ==> (#[trigger] after[j]).0@ != name
                &&& forall|j: int|
                    0 <= j < constants.len() && j != at ==> #[trigger] after[j] == constants[j]
            },
        (exists|i: int| 0 <= i < constants.len() && (#[trigger] constants[i]).0@ == name)
            ==> after.len() == constants.len(),
        (forall|i: int| 0 <= i < constants.len() ==> (#[trigger] constants[i]).0@ != name)
            ==> after.len() == constants.len() + 1,
{
    if exists|i: int| 0 <= i < constants.len() && (#[trigger] constants[i]).0@ == name {
        let i = choose|i: int| 0 <= i < constants.len() && (#[trigger] constants[i]).0@ == name;
        let at = lemma_first_constant(constants, name, i);
        assert(after[at].0@ == name);
    } else {
        assert forall|at: int| !Shader::constant_at(constants, name, at) by {}
        let at = constants.len() as int;
        assert forall|j: int| 0 <= j < at implies #[trigger] after[j] == constants[j] by {
            assert(after.drop_last()[j] == constants[j]);
        }
        assert(after[at].0@ == name);
    }
}

proof fn lemma_first_constant(constants: Seq<(String, Double)>, name: Seq<char>, i: int) -> (at: int)
    requires
        0 <= i < constants.len(),
        constants[i].0@ == name,
    ensures
        Shader::constant_at(constants, name, at),
    decreases i,
{
    if exists|j: int| 0 <= j < i && (#[trigger] constants[j]).0@ == name {
        let j = choose|j: int| 0 <= j < i && (#[trigger] constants[j]).0@ == name;
        lemma_first_constant(constants, name, j)
    } else {
        i
    }
}

} // verus!
