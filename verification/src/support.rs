//! What the viewer's window is set up with.

use vstd::prelude::*;
use vstd::string::StrSliceExecFns;

verus! {

/// The settings a window is opened with.
#[derive(Debug, Clone, PartialEq, Eq)]
pub struct WindowSetup {
    /// The text in the window's title bar.
    pub title: String,
}

/// `name` is what follows the last `/` of `path`, or all of `path` where it
/// holds none.
pub open spec fn is_file_name_of(path: Seq<char>, name: Seq<char>) -> bool {
    exists|start: int|
        {
            &&& 0 <= start <= path.len()
            &&& #[trigger] path.subrange(start, path.len() as int) == name
            &&& start > 0 ==> path[start - 1] == '/'
            &&& forall|i: int| start <= i < path.len() ==> #[trigger] path[i] != '/'
        }
}

/// Only one text is the file name of a path.
pub proof fn lemma_file_name_is_unique(path: Seq<char>, a: Seq<char>, b: Seq<char>)
    requires
        is_file_name_of(path, a),
        is_file_name_of(path, b),
    ensures
        a == b,
{
    let n = path.len() as int;
    let i = choose|start: int|
        {
            &&& 0 <= start <= path.len()
            &&& #[trigger] path.subrange(start, n) == a
            &&& start > 0 ==> path[start - 1] == '/'
            &&& forall|i: int| start <= i < path.len() ==> #[trigger] path[i] != '/'
        };
    let j = choose|start: int|
        {
            &&& 0 <= start <= path.len()
            &&& #[trigger] path.subrange(start, n) == b
            &&& start > 0 ==> path[start - 1] == '/'
            &&& forall|i: int| start <= i < path.len() ==> #[trigger] path[i] != '/'
        };
    if i < j {
        assert(path[j - 1] != '/');
    } else if j < i {
        assert(path[i - 1] != '/');
    }
}

/// Prepares the window of the viewer. It is titled with the file name part
/// of `title`, which is commonly the path of the program's source file.
pub fn init(title: &str) -> (setup: WindowSetup)
    ensures
        is_file_name_of(title@, setup.title@),
{
    let len = title.unicode_len();
    let mut start: usize = 0;
    let mut k: usize = 0;
    while k < len
        invariant
            len == title@.len(),
            start <= k <= len,
            start > 0 ==> title@[start - 1] == '/',
            forall|i: int| start <= i < k ==> #[trigger] title@[i] != '/',
        decreases len - k,
    {
        if title.get_char(k) == '/' {
            start = k + 1;
        }
        k += 1;
    }
    let name = title.substring_char(start, len);
    WindowSetup { title: name.to_owned() }
}

} // verus!
