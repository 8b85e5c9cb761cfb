//! Where the input comes from: a filesystem path or a URL.
use vstd::prelude::*;

use vstd::string::StringSliceAdditionalSpecFns;

use crate::text::{ascii_bytes, bytes_start_with_ignoring_case, starts_with_ignoring_case};

verus! {

/// Where the input file comes from.
pub enum Source {
    /// A filesystem path, as given
    File(String),
    /// A URL with a scheme this tool can fetch
    Url(String),
}

/// The schemes that are fetched rather than opened as paths.
pub open spec fn url_schemes() -> Seq<Seq<char>> {
    seq!["http://"@, "https://"@, "ftp://"@, "ftps://"@]
}

/// The UTF-8 bytes `b` begin, ignoring ASCII case, with one of `url_schemes()`.
pub open spec fn has_url_scheme(b: Seq<u8>) -> bool {
    exists|i: int| 0 <= i < url_schemes().len() && starts_with_ignoring_case(b, ascii_bytes(#[trigger] url_schemes()[i]))
}

impl Source {
    /// The text the source was given as.
    pub open spec fn text(&self) -> Seq<char> {
        match self {
            Source::File(p) => p@,
            Source::Url(u) => u@,
        }
    }

    /// Reads a raw argument: anything with a recognised URL scheme is a
    /// URL, everything else a filesystem path.
    pub fn parse(input: &str) -> (r: Self)
        ensures
            r.text() == input@,
            r is Url <==> has_url_scheme(input.spec_bytes()),
    {
        if is_url(input) {
            Source::Url(input.to_owned())
        } else {
            Source::File(input.to_owned())
        }
    }

    /// The path, for a file source.
    pub fn as_path(&self) -> (r: Option<&str>)
        ensures
            r is Some <==> self is File,
            r matches Some(p) ==> p@ == self.text(),
    {
        match self {
            Source::File(p) => Some(p.as_str()),
            Source::Url(_) => None,
        }
    }

    /// The source as given, for display.
    pub fn display(&self) -> (r: String)
        ensures
            r@ == self.text(),
    {
        match self {
            Source::File(p) => p.clone(),
            Source::Url(u) => u.clone(),
        }
    }

    /// Short label shown in the transfer row of the progress display.
    pub fn transfer_label(&self) -> (r: &'static str)
        ensures
            r@ == (if self is File {
                "Network transfer"@
            } else {
                "HTTP download"@
            }),
    {
        match self {
            Source::File(_) => "Network transfer",
            Source::Url(_) => "HTTP download",
        }
    }
}

/// True for strings that start with a recognised URL scheme, ignoring ASCII
/// case. Deliberately narrow: only schemes that can be fetched; UNC paths
/// (`\\server\share`, `//server/share`) are not URLs.
pub fn is_url(s: &str) -> (r: bool)
    ensures
        r == has_url_scheme(s.spec_bytes()),
{
    broadcast use vstd::string::is_ascii_spec_bytes;

    let b = s.as_bytes();
    let http = "http://";
    let https = "https://";
    let ftp = "ftp://";
    let ftps = "ftps://";
    proof {
        reveal_strlit("http://");
        reveal_strlit("https://");
        reveal_strlit("ftp://");
        reveal_strlit("ftps://");
        assert(vstd::string::is_ascii(http));
        assert(vstd::string::is_ascii(https));
        assert(vstd::string::is_ascii(ftp));
        assert(vstd::string::is_ascii(ftps));
        assert(http.spec_bytes() =~= ascii_bytes(url_schemes()[0]));
        assert(https.spec_bytes() =~= ascii_bytes(url_schemes()[1]));
        assert(ftp.spec_bytes() =~= ascii_bytes(url_schemes()[2]));
        assert(ftps.spec_bytes() =~= ascii_bytes(url_schemes()[3]));
    }
    let r = bytes_start_with_ignoring_case(b, http.as_bytes()) || bytes_start_with_ignoring_case(b, https.as_bytes())
        || bytes_start_with_ignoring_case(b, ftp.as_bytes()) || bytes_start_with_ignoring_case(b, ftps.as_bytes());
    proof {
        if !r {
            assert forall|i: int| 0 <= i < url_schemes().len() implies !starts_with_ignoring_case(
                b@,
                ascii_bytes(#[trigger] url_schemes()[i]),
            ) by {
                if i == 0 {
                } else if i == 1 {
                } else if i == 2 {
                } else {
                }
            }
        }
    }
    r
}

/// Whether a URL is recognised depends on the letters of its bytes only up
/// to ASCII case: two inputs that lower-case to the same bytes are both URLs
/// or both not.
pub proof fn lemma_url_scheme_ignores_case(a: Seq<u8>, b: Seq<u8>)
    requires
        a.len() == b.len(),
        forall|i: int|
            #![trigger a[i]]
            #![trigger b[i]]
            0 <= i < a.len() ==> crate::text::ascii_lower(a[i]) == crate::text::ascii_lower(b[i]),
    ensures
        has_url_scheme(a) == has_url_scheme(b),
{
    if has_url_scheme(a) {
        let i = choose|i: int| 0 <= i < url_schemes().len() && starts_with_ignoring_case(a, ascii_bytes(#[trigger] url_schemes()[i]));
        assert(starts_with_ignoring_case(b, ascii_bytes(url_schemes()[i])));
    }
    if has_url_scheme(b) {
        let i = choose|i: int| 0 <= i < url_schemes().len() && starts_with_ignoring_case(b, ascii_bytes(#[trigger] url_schemes()[i]));
        assert(starts_with_ignoring_case(a, ascii_bytes(url_schemes()[i])));
    }
}

} // verus!
