use vstd::prelude::*;
use vstd::string::*;
use crate::error::PlatformError;
use crate::extension::push_char;
use crate::names::{humanize_bundle_id, humanize_spec};

verus! {

/// One row of the association listing.
#[derive(Debug, Clone, PartialEq, Eq)]
pub struct FileAssociation {
    pub extension: String,
    pub application_name: String,
    pub application_path: String,
}

/// Where the default application of an extension came from.
pub enum DefaultSource {
    /// An entry of the handler store named it.
    Recorded(String),
    /// The system's own default-handler query named it.
    System(String),
    /// Neither named one.
    Unset,
}

/// What resolving an application identifier to an installed bundle gave.
pub enum Resolution {
    /// The bundle's path and its display name.
    Found { path: String, name: String },
    /// The identifier could not be resolved; the error's message.
    NotFound(String),
}

/// The label of an extension with no default application.
pub open spec fn unset_label() -> Seq<char> {
    "未设置默认应用"@
}

/// The row for an extension from where its default came from and what
/// resolving that application gave. A recorded application that could not be
/// found, whichever source named it, is labelled by its humanized identifier
/// with the error in the path column.
pub open spec fn association_spec(
    ext: Seq<char>,
    source: DefaultSource,
    resolution: Resolution,
) -> (Seq<char>, Seq<char>, Seq<char>) {
    match source {
        DefaultSource::Unset => (ext, unset_label(), Seq::empty()),
        DefaultSource::Recorded(id) => match resolution {
            Resolution::Found { path, name } => (ext, name@, path@),
            Resolution::NotFound(err) => (ext, humanize_spec(id@) + " (未找到路径)"@, err@),
        },
        DefaultSource::System(id) => match resolution {
            Resolution::Found { path, name } => (ext, name@, path@),
            Resolution::NotFound(err) => (ext, humanize_spec(id@) + " (未找到路径)"@, err@),
        },
    }
}

pub open spec fn row_view(a: FileAssociation) -> (Seq<char>, Seq<char>, Seq<char>) {
    (a.extension@, a.application_name@, a.application_path@)
}

/// Builds the listing row of one extension.
pub fn association_entry(extension: String, source: DefaultSource, resolution: Resolution) -> (r:
    FileAssociation)
    ensures
        row_view(r) == association_spec(extension@, source, resolution),
{
    match source {
        DefaultSource::Unset => FileAssociation {
            extension,
            application_name: String::from_str("未设置默认应用"),
            application_path: String::new(),
        },
        DefaultSource::Recorded(id) => match resolution {
            Resolution::Found { path, name } => FileAssociation {
                extension,
                application_name: name,
                application_path: path,
            },
            Resolution::NotFound(err) => FileAssociation {
                extension,
                application_name: humanize_bundle_id(id.as_str()).concat(" (未找到路径)"),
                application_path: err,
            },
        },
        DefaultSource::System(id) => match resolution {
            Resolution::Found { path, name } => FileAssociation {
                extension,
                application_name: name,
                application_path: path,
            },
            Resolution::NotFound(err) => FileAssociation {
                extension,
                application_name: humanize_bundle_id(id.as_str()).concat(" (未找到路径)"),
                application_path: err,
            },
        },
    }
}

/// The error text of an application that could not be found.
pub fn not_found_error() -> (r: PlatformError)
    ensures
        r is Command && r->Command_0@ == "未找到应用路径"@,
{
    PlatformError::Command(String::from_str("未找到应用路径"))
}

/// The character of a decimal digit.
pub open spec fn digit_char(d: int) -> char {
    if d == 0 { '0' } else if d == 1 { '1' } else if d == 2 { '2' } else if d == 3 { '3' }
    else if d == 4 { '4' } else if d == 5 { '5' } else if d == 6 { '6' } else if d == 7 { '7' }
    else if d == 8 { '8' } else { '9' }
}

/// The decimal digits of a natural number, without leading zeros.
pub open spec fn digits(n: nat) -> Seq<char>
    decreases n,
{
    if n < 10 {
        seq![digit_char(n as int)]
    } else {
        digits(n / 10).push(digit_char((n % 10) as int))
    }
}

/// The decimal text of an integer, with a minus sign where it is negative.
pub open spec fn decimal_text(n: int) -> Seq<char> {
    if n < 0 {
        seq!['-'] + digits((-n) as nat)
    } else {
        digits(n as nat)
    }
}

fn digit_char_exec(d: u32) -> (c: char)
    requires
        d < 10,
    ensures
        c == digit_char(d as int),
{
    if d == 0 { '0' } else if d == 1 { '1' } else if d == 2 { '2' } else if d == 3 { '3' }
    else if d == 4 { '4' } else if d == 5 { '5' } else if d == 6 { '6' } else if d == 7 { '7' }
    else if d == 8 { '8' } else { '9' }
}

/// The decimal text of an integer.
fn i32_text(n: i32) -> (r: String)
    ensures
        r@ == decimal_text(n as int),
{
    let ghost whole: nat = if n < 0 { (-(n as int)) as nat } else { n as nat };
    let mut m: u32 = if n < 0 { (-(n as i64)) as u32 } else { n as u32 };
    assert(m as nat == whole);
    // the low digits, last one first
    let mut low: Vec<char> = Vec::new();
    let ghost mut tail: Seq<char> = Seq::empty();
    while m >= 10
        invariant
            digits(whole) == digits(m as nat) + tail,
            low@.len() == tail.len(),
            forall|k: int| 0 <= k < tail.len() ==> #[trigger] low@[k] == tail[tail.len() - 1 - k],
        decreases m,
    {
        let d = m % 10;
        let c = digit_char_exec(d);
        proof {
            assert(digits(m as nat) == digits((m / 10) as nat).push(c));
            assert(digits((m / 10) as nat).push(c) + tail =~= digits((m / 10) as nat) + (seq![c] + tail));
            tail = seq![c] + tail;
        }
        low.push(c);
        m = m / 10;
    }
    let mut r = String::new();
    if n < 0 {
        push_char(&mut r, '-');
    }
    push_char(&mut r, digit_char_exec(m));
    let ghost head = r@;
    let mut i: usize = low.len();
    while i > 0
        invariant
            i <= low@.len(),
            low@.len() == tail.len(),
            forall|k: int| 0 <= k < tail.len() ==> #[trigger] low@[k] == tail[tail.len() - 1 - k],
            r@ == head + tail.subrange(0, tail.len() - i),
        decreases i,
    {
        i = i - 1;
        push_char(&mut r, low[i]);
        assert(tail.subrange(0, tail.len() - i) =~= tail.subrange(0, tail.len() - i - 1).push(
            tail[tail.len() - 1 - i],
        ));
    }
    assert(tail.subrange(0, tail.len() as int) =~= tail);
    assert(digits(m as nat) == seq![digit_char(m as int)]);
    if n < 0 {
        assert(r@ =~= seq!['-'] + digits(whole));
    } else {
        assert(r@ =~= digits(whole));
    }
    r
}

/// The outcome of the native call that sets a content type's default
/// handler: zero is success, any other status a command failure.
pub fn native_status_result(status: i32) -> (r: Result<(), PlatformError>)
    ensures
        status == 0 <==> r is Ok,
        r matches Err(e) ==> (e is Command && e->Command_0@
            == "LSSetDefaultRoleHandlerForContentType 失败: "@ + decimal_text(status as int)),
{
    if status == 0 {
        Ok(())
    } else {
        let text = i32_text(status);
        Err(
            PlatformError::Command(
                String::from_str("LSSetDefaultRoleHandlerForContentType 失败: ").concat(
                    text.as_str(),
                ),
            ),
        )
    }
}


/// The outcome of the native call on the path for an extension with no known
/// content type. That path is best-effort: the handler store entry is the
/// durable record, so a failing status is reported as not applied and the
/// assignment goes on.
pub fn best_effort_status(status: i32) -> (r: (bool, Result<(), PlatformError>))
    ensures
        r.0 == (status == 0),
        r.1 is Ok,
{
    (status == 0, Ok(()))
}

} // verus!
