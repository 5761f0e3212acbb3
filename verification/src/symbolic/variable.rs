use vstd::prelude::*;
use vstd::string::*;

verus! {

/// What a context asks of the names of its variables: that two of them can be
/// told apart.
pub trait VariableName: Sized {
    /// Whether the two names are the same name.
    fn same(&self, other: &Self) -> (r: bool)
        ensures
            r == (*self == *other),
    ;

    /// A number for the name: the same name has the same number.
    spec fn code(&self) -> u64;

    /// Computes [`VariableName::code`].
    fn to_code(&self) -> (r: u64)
        ensures
            r == self.code(),
    ;

    /// The name as text.
    spec fn text(&self) -> Seq<char>;

    /// The name as text.
    fn to_string(&self) -> (r: String)
        ensures
            r@ == self.text(),
    ;
}

/// What kind of variable a variable is.
#[derive(Clone, Debug, PartialEq, Eq, Hash)]
pub enum VariableKind<N> {
    Named(N),
    Temporary,
}

/// A variable of a kind, told apart from the others of its kind by a
/// sequence number.
#[derive(Clone, Debug, PartialEq, Eq, Hash)]
pub struct Variable<N> {
    pub kind: VariableKind<N>,
    pub seq: usize,
}

impl<N: VariableName> Variable<N> {
    pub fn kind(&self) -> (r: &VariableKind<N>)
        ensures
            *r == self.kind,
    {
        &self.kind
    }

    pub fn seq(&self) -> (r: usize)
        ensures
            r == self.seq,
    {
        self.seq
    }

    /// The variable as text: `%`, its name or `t` for a temporary one, `.`
    /// and its sequence number.
    pub open spec fn text(&self) -> Seq<char> {
        match self.kind {
            VariableKind::Named(name) => "%"@ + name.text() + "."@ + crate::text::decimal_text(
                self.seq as nat,
            ),
            VariableKind::Temporary => "%t."@ + crate::text::decimal_text(self.seq as nat),
        }
    }
}

/// A variable, to be written as text.
pub struct DisplayVariable<'a, N> {
    pub variable: &'a Variable<N>,
}

impl<'a, N: VariableName> DisplayVariable<'a, N> {
    pub fn to_string(&self) -> (r: String)
        ensures
            r@ == self.variable.text(),
    {
        match &self.variable.kind {
            VariableKind::Named(name) => {
                let mut out = String::from_str("%");
                out.append(name.to_string().as_str());
                out.append(".");
                crate::text::push_number(&mut out, self.variable.seq as u64, 10);
                out
            },
            VariableKind::Temporary => {
                let mut out = String::from_str("%t.");
                crate::text::push_number(&mut out, self.variable.seq as u64, 10);
                out
            },
        }
    }
}

/// The names of a context that has none but numbered variables: no value of
/// this type can be made.
#[derive(Clone, Copy, Debug, PartialEq, Eq, Hash)]
pub struct NoNamedVariables {
    nothing: (),
}

impl VariableName for NoNamedVariables {
    fn same(&self, other: &Self) -> (r: bool) {
        true
    }

    open spec fn code(&self) -> u64 {
        0
    }

    fn to_code(&self) -> (r: u64) {
        0
    }

    open spec fn text(&self) -> Seq<char> {
        ""@
    }

    fn to_string(&self) -> (r: String) {
        String::from_str("")
    }
}

} // verus!
