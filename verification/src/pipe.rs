//! Handing out the bytes of one member at the end of a chain.
use crate::archive::member;
use crate::common::{
    located, owned_names, parse_file_to_archive, slice_texts, texts, Action, FileRead, Outcome,
    OutcomeView,
};
use crate::error::{Error, ErrorKind, ErrorKindView};
use vstd::prelude::*;

verus! {

/// The request to hand out one member of the archive at the end of a chain.
pub struct PipeUnpackActionInput {
    input_file_name: String,
    nested_file_names: Vec<String>,
    unpack_target_file: String,
}

impl PipeUnpackActionInput {
    /// The member whose bytes are handed out.
    pub closed spec fn target(&self) -> Seq<char> {
        self.unpack_target_file@
    }

    /// Makes the request from the outer file followed by member names. The last name is
    /// the member to hand out, the names before it are the chain. Without any member name
    /// there is nothing to hand out.
    pub fn new(input: Vec<&str>) -> (made: Result<PipeUnpackActionInput, Error>)
        requires
            input.len() >= 1,
        ensures
            match made {
                Ok(action) => input.len() >= 2 && action.file() == input[0]@ && action.chain()
                    == slice_texts(input@.subrange(1, input.len() - 1)) && action.target()
                    == input@.last()@,
                Err(error) => input.len() == 1 && error@ == ErrorKindView::UnpackTargetMissing,
            },
    {
        if input.len() < 2 {
            return Err(Error::from(ErrorKind::UnpackTargetMissing));
        }
        let action_input = PipeUnpackActionInput {
            input_file_name: String::from_str(input[0]),
            nested_file_names: owned_names(&input, 1, input.len() - 1),
            unpack_target_file: String::from_str(input[input.len() - 1]),
        };
        Ok(action_input)
    }
}

impl Action for PipeUnpackActionInput {
    closed spec fn file(&self) -> Seq<char> {
        self.input_file_name@
    }

    closed spec fn chain(&self) -> Seq<Seq<char>> {
        texts(self.nested_file_names@)
    }

    /// The bytes of the target member of the archive at the end of the chain.
    open spec fn outcome(&self, read: FileRead) -> Result<OutcomeView, ErrorKindView> {
        match located(self.file(), read, self.chain()) {
            Err(kind) => Err(kind),
            Ok(entries) => match member(entries, self.target()) {
                Err(kind) => Err(kind),
                Ok(bytes) => Ok(OutcomeView::Bytes(bytes)),
            },
        }
    }

    fn input_file_name(&self) -> (name: &str) {
        self.input_file_name.as_str()
    }

    fn exec(&self, read: FileRead) -> (done: Result<Outcome, Error>) {
        let mut inner_archive = match parse_file_to_archive(
            self.input_file_name.as_str(),
            read,
            self.nested_file_names.as_slice(),
        ) {
            Ok(inner_archive) => inner_archive,
            Err(error) => {
                return Err(error);
            },
        };
        match inner_archive.read_entry_by_name(self.unpack_target_file.as_str()) {
            Ok(buf) => Ok(Outcome::Bytes(buf)),
            Err(error) => Err(error),
        }
    }
}

} // verus!
