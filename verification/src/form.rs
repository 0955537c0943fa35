//! The shapes of forms, their questions and the answers submitted to them.
use vstd::prelude::*;

verus! {

/// A form that submissions can be posted to.
pub struct Form {
    name: String,
}

impl Form {
    /// A form with the given name.
    pub fn new(name: String) -> (f: Form)
        ensures
            f.spec_name() == name@,
    {
        Form { name }
    }

    /// The form's name, as text.
    pub closed spec fn spec_name(&self) -> Seq<char> {
        self.name@
    }

    /// The form's name.
    pub fn name(&self) -> (r: &String)
        ensures
            r@ == self.spec_name(),
    {
        &self.name
    }
}

/// The kind of value a question asks for, with a value of that kind.
#[derive(Clone)]
pub enum FormDataType {
    Text(String),
    Num(i32),
    Bool(bool),
    Select(String),
    MultiSelect(Vec<String>),
    Rating(u32),
    Scale(String),
}

/// A question of a form.
#[allow(dead_code)]
pub struct FormQuestion {
    id: u32,
    question: String,
    data_type: FormDataType,
    default: Option<FormDataType>,
}

/// The answer to one question.
#[allow(dead_code)]
#[derive(Clone)]
pub struct FormAnswer {
    id: u32,
    answer: FormDataType,
}

/// All answers of one submission.
#[allow(dead_code)]
#[derive(Clone)]
pub struct FormEntry {
    answers: Vec<FormAnswer>,
}

} // verus!
