//! Questions to the operator, and the answers that come back.

use crate::utils::error::EnzoError;
use crate::utils::error::EnzoErrorKind;
use std::collections::HashMap;
use vstd::prelude::*;
use vstd::string::*;

verus! {

/// A question to the operator.
pub struct Question<'a> {
    /// What is asked.
    pub question: &'a str,
    /// The answer that is proposed.
    pub default: Option<&'a str>,
    /// What the answer line starts with.
    pub prefill: Option<&'a str>,
    /// Hints at what to answer.
    pub hints: Option<Vec<&'a str>>,
}

/// An answer. A question is answered by a single string; the other forms
/// are kept in documents that hold them, and nothing here produces or reads
/// them.
#[derive(Debug)]
pub enum AnswerKind {
    Single(String),
    Multiple(Vec<String>),
    KeyValueSingle((String, String)),
    KeyValueMultiple(HashMap<String, String>),
    BinaryOption(bool),
}

/// What is said where an answer of another form is asked for.
pub open spec fn not_askable() -> Seq<char> {
    "only a single answer can be asked for"@
}

/// The lines that show `hints`, one line for each hint.
pub open spec fn hint_lines(hints: Seq<&str>) -> Seq<char>
    decreases hints.len(),
{
    if hints.len() == 0 {
        Seq::empty()
    } else {
        hint_lines(hints.drop_last()) + "\nhint: "@ + hints.last()@
    }
}

impl<'a> Question<'a> {
    /// The question `question` with what goes with it.
    pub fn new(
        question: &'a str,
        default: Option<&'a str>,
        prefill: Option<&'a str>,
        hints: Option<Vec<&'a str>>,
    ) -> (q: Self)
        ensures
            q.question == question,
            q.default == default,
            q.prefill == prefill,
            q.hints == hints,
    {
        Question { question, default, prefill, hints }
    }

    /// The question `question` with nothing else.
    pub fn new_question(question: &'a str) -> (q: Self)
        ensures
            q.question == question,
            q.default is None,
            q.prefill is None,
            q.hints is None,
    {
        Question { question, default: None, prefill: None, hints: None }
    }

    /// The text that asks this question: a question mark and the question;
    /// the default in brackets, if there is one; a line for each hint; the
    /// mark of the answer line, and what the line starts with.
    pub open spec fn prompt(&self) -> Seq<char> {
        "? "@ + self.question@ + " "@ + (match self.default {
            Some(default) => "(default "@ + default@ + ")"@,
            None => Seq::empty(),
        }) + (match self.hints {
            Some(hints) => hint_lines(hints@),
            None => Seq::empty(),
        }) + "\n> "@ + (match self.prefill {
            Some(prefill) => prefill@,
            None => Seq::empty(),
        })
    }

    /// The text that asks this question.
    pub fn to_string(&self) -> (text: String)
        ensures
            text@ == self.prompt(),
    {
        let mut text = String::from_str("? ");
        text.append(self.question);
        text.append(" ");
        if let Some(default) = self.default {
            text.append("(default ");
            text.append(default);
            text.append(")");
            proof {
                assert("? "@ + self.question@ + " "@ + ("(default "@ + default@ + ")"@) =~= "? "@
                    + self.question@ + " "@ + "(default "@ + default@ + ")"@);
            }
        }
        let ghost head = text@;
        if let Some(hints) = &self.hints {
            let mut i: usize = 0;
            while i < hints.len()
                invariant
                    i <= hints@.len(),
                    text@ == head + hint_lines(hints@.take(i as int)),
                decreases hints@.len() - i,
            {
                text.append("\nhint: ");
                text.append(hints[i]);
                proof {
                    let next = hints@.take(i + 1);
                    assert(next.drop_last() =~= hints@.take(i as int));
                    assert(next.last() == hints@[i as int]);
                    assert(head + hint_lines(hints@.take(i as int)) + "\nhint: "@ + hints@[i as int]@
                        =~= head + (hint_lines(hints@.take(i as int)) + "\nhint: "@
                        + hints@[i as int]@));
                }
                i += 1;
            }
            proof {
                assert(hints@.take(hints@.len() as int) =~= hints@);
            }
        }
        text.append("\n> ");
        if let Some(prefill) = self.prefill {
            text.append(prefill);
        }
        text
    }

    /// Takes `line`, the line that the operator gave to this question, as
    /// the answer: a single answer becomes `line`. An answer of another form
    /// cannot be asked for: it stays, and the error says so.
    pub fn ask(&self, answer: &mut AnswerKind, line: String) -> (outcome: Result<(), EnzoError>)
        ensures
            match outcome {
                Ok(_) => *old(answer) is Single && *final(answer) == AnswerKind::Single(line),
                Err(e) => !(*old(answer) is Single) && *final(answer) == *old(answer) && e@ == (
                    EnzoErrorKind::FatalError,
                    not_askable(),
                ),
            },
    {
        match answer {
            AnswerKind::Single(text) => {
                *text = line;
                Ok(())
            },
            _ => Err(
                EnzoError::new(
                    String::from_str("only a single answer can be asked for"),
                    EnzoErrorKind::FatalError,
                ),
            ),
        }
    }
}

} // verus!
