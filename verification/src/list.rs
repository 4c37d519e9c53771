//! Listing the names in the archive at the end of a chain.
use crate::common::{
    get_files_list, listing, located, owned_names, parse_file_to_archive, slice_texts, texts,
    Action, FileRead, Outcome, OutcomeView,
};
use crate::error::{Error, ErrorKindView};
use vstd::prelude::*;

verus! {

/// The request to list the archive at the end of a chain.
pub struct ListActionInput {
    input_file_name: String,
    nested_file_names: Vec<String>,
}

impl ListActionInput {
    /// Makes the request from the outer file followed by the member names of the chain.
    pub fn new(input: Vec<&str>) -> (made: Result<ListActionInput, Error>)
        requires
            input.len() >= 1,
        ensures
            made matches Ok(action) && action.file() == input[0]@ && action.chain() == slice_texts(
                input@.skip(1),
            ),
    {
        let action_input = ListActionInput {
            input_file_name: String::from_str(input[0]),
            nested_file_names: owned_names(&input, 1, input.len()),
        };
        Ok(action_input)
    }
}

impl Action for ListActionInput {
    closed spec fn file(&self) -> Seq<char> {
        self.input_file_name@
    }

    closed spec fn chain(&self) -> Seq<Seq<char>> {
        texts(self.nested_file_names@)
    }

    /// The names of the archive at the end of the chain, in the order of that archive.
    open spec fn outcome(&self, read: FileRead) -> Result<OutcomeView, ErrorKindView> {
        match located(self.file(), read, self.chain()) {
            Err(kind) => Err(kind),
            Ok(entries) => match listing(entries) {
                Err(kind) => Err(kind),
                Ok(names) => Ok(OutcomeView::Names(names)),
            },
        }
    }

    fn input_file_name(&self) -> (name: &str) {
        self.input_file_name.as_str()
    }

    fn exec(&self, read: FileRead) -> (done: Result<Outcome, Error>) {
        let mut inner_archive = match parse_file_to_archive(
            self.input_file_name.as_str(),
            read,
            self.nested_file_names.as_slice(),
        ) {
            Ok(inner_archive) => inner_archive,
            Err(error) => {
                return Err(error);
            },
        };
        match get_files_list(&mut inner_archive) {
            Ok(names) => Ok(Outcome::Names(names)),
            Err(error) => Err(error),
        }
    }
}

} // verus!
