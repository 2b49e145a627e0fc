//! Where template files come from.
use crate::links::{lookup, Pair};
use vstd::prelude::*;

verus! {

/// Supplies the content of template files.
///
/// An implementation is a mapping from paths to contents for the duration of
/// one expansion. `contents` names that mapping and `read_to_string` reads
/// it. An implementation checked by Verus states its mapping by defining
/// `contents`; the default is closed and unspecified, so nothing is known of
/// the mapping of one that does not.
pub trait FileReader {
    /// The content of the file at `file_name`, or `None` where it cannot be
    /// read.
    closed spec fn contents(&self, file_name: Seq<char>) -> Option<Seq<char>> {
        arbitrary()
    }

    /// Reads the file at `file_name`. `template_text` is the invocation that
    /// asked for it, for the error message.
    fn read_to_string(&self, file_name: &str, template_text: &str) -> (r: Result<String, String>)
        ensures
            match r {
                Ok(c) => self.contents(file_name@) == Some(c@),
                Err(_) => self.contents(file_name@) is None,
            },
    ;
}

/// Files held in memory, as pairs of a path and a content. Where a path
/// occurs twice, the later pair counts.
#[derive(PartialEq, Eq, Debug, Clone)]
pub struct TestFileReader {
    pub captured_contents: Vec<(String, String)>,
}

impl TestFileReader {
    pub open spec fn files(&self) -> Seq<Pair> {
        self.captured_contents@.map_values(|p: (String, String)| (p.0@, p.1@))
    }
}

impl Default for TestFileReader {
    fn default() -> (r: Self)
        ensures
            r.captured_contents@.len() == 0,
    {
        TestFileReader { captured_contents: Vec::new() }
    }
}

impl From<Vec<(String, String)>> for TestFileReader {
    fn from(files: Vec<(String, String)>) -> (r: Self) {
        TestFileReader { captured_contents: files }
    }
}

impl vstd::std_specs::convert::FromSpecImpl<Vec<(String, String)>> for TestFileReader {
    open spec fn obeys_from_spec() -> bool {
        true
    }

    open spec fn from_spec(files: Vec<(String, String)>) -> TestFileReader {
        TestFileReader { captured_contents: files }
    }
}

impl FileReader for TestFileReader {
    open spec fn contents(&self, file_name: Seq<char>) -> Option<Seq<char>> {
        lookup(self.files(), file_name)
    }

    fn read_to_string(&self, file_name: &str, template_text: &str) -> (r: Result<String, String>) {
        let name = file_name.to_owned();
        let mut k = self.captured_contents.len();
        assert(self.captured_contents@.subrange(0, k as int) =~= self.captured_contents@);
        while k > 0
            invariant
                k <= self.captured_contents.len(),
                name@ == file_name@,
                lookup(
                    self.captured_contents@.subrange(0, k as int).map_values(
                        |p: (String, String)| (p.0@, p.1@),
                    ),
                    name@,
                ) == self.contents(file_name@),
            decreases k,
        {
            let ghost pre = self.captured_contents@.subrange(0, k as int).map_values(
                |p: (String, String)| (p.0@, p.1@),
            );
            assert(pre.drop_last() =~= self.captured_contents@.subrange(0, k - 1).map_values(
                |p: (String, String)| (p.0@, p.1@),
            ));
            if self.captured_contents[k - 1].0 == name {
                return Ok(self.captured_contents[k - 1].1.clone());
            }
            k = k - 1;
        }
        let mut message = "Could not read template file ".to_owned();
        message.append(template_text);
        message.append(" (");
        message.append(file_name);
        message.append(")");
        Err(message)
    }
}

} // verus!
