//! HTML to PDF: the page-layout choice, and the default conversion through `ironpress`.
use vstd::prelude::*;
use crate::models::dto::PageOptions;
use crate::text::{ascii_lower_seq, ascii_lowercase, chars_eq, chars_of, push_chars, push_str, string_from_chars};

verus! {

/// Options of a PDF conversion beyond the HTML itself.
pub struct PdfBuildOptions {
    pub page: PageOptions,
    pub header: Option<String>,
    pub footer: Option<String>,
}

/// The named paper sizes.
#[derive(Clone, Copy, Debug, PartialEq, Eq, Structural)]
pub enum PageFormat {
    A4,
    Letter,
    Legal,
}

/// A paper size and orientation.
#[derive(Clone, Copy, Debug, PartialEq, Eq, Structural)]
pub struct PageLayout {
    pub format: PageFormat,
    pub landscape: bool,
}

/// The paper size a format name stands for, ignoring ASCII case.
pub open spec fn page_format_of(fmt: Seq<char>) -> Result<PageFormat, Seq<char>> {
    let lower = ascii_lower_seq(fmt);
    if lower == "a4"@ {
        Ok(PageFormat::A4)
    } else if lower == "letter"@ {
        Ok(PageFormat::Letter)
    } else if lower == "legal"@ {
        Ok(PageFormat::Legal)
    } else {
        Err("unsupported page format '"@ + lower + "'"@)
    }
}

/// The name of a paper size, in lower case.
pub open spec fn page_format_name(f: PageFormat) -> Seq<char> {
    match f {
        PageFormat::A4 => "a4"@,
        PageFormat::Letter => "letter"@,
        PageFormat::Legal => "legal"@,
    }
}

/// A format is read from its name in any ASCII case and from no other text: the size read
/// is the one the lower-cased text names, and a text that names none is refused.
pub proof fn lemma_page_format_names(fmt: Seq<char>, g: PageFormat)
    ensures
        page_format_of(fmt) matches Ok(h) ==> ascii_lower_seq(fmt) == page_format_name(h),
        ascii_lower_seq(fmt) == page_format_name(g) ==> page_format_of(fmt) == Ok::<PageFormat, Seq<char>>(g),
        page_format_of(fmt) is Err <==> (forall|h: PageFormat| ascii_lower_seq(fmt) != page_format_name(h)),
{
    reveal_strlit("a4");
    reveal_strlit("letter");
    reveal_strlit("legal");
    assert("letter"@ != "a4"@) by { assert("letter"@[0] != "a4"@[0]); }
    assert("legal"@ != "a4"@ && "legal"@ != "letter"@) by {
        assert("legal"@[0] != "a4"@[0]);
        assert("legal"@[2] != "letter"@[2]);
    }
    if page_format_of(fmt) is Err {
        assert forall|h: PageFormat| ascii_lower_seq(fmt) != page_format_name(h) by {
            match h {
                PageFormat::A4 => {},
                PageFormat::Letter => {},
                PageFormat::Legal => {},
            }
        }
    } else {
        let h = page_format_of(fmt)->Ok_0;
        assert(ascii_lower_seq(fmt) == page_format_name(h));
    }
}

fn is_name(v: &Vec<char>, name: &str) -> (b: bool)
    ensures
        b == (v@ == name@),
{
    let n = chars_of(name);
    chars_eq(v, &n)
}

/// Reads a paper format name: `A4`, `Letter` or `Legal`, in any ASCII case.
pub fn page_size_for(fmt: &str) -> (r: Result<PageFormat, String>)
    ensures
        match (r, page_format_of(fmt@)) {
            (Ok(a), Ok(b)) => a == b,
            (Err(e), Err(f)) => e@ == f,
            _ => false,
        },
{
    let v = chars_of(fmt);
    let lower = ascii_lowercase(&v);
    if is_name(&lower, "a4") {
        Ok(PageFormat::A4)
    } else if is_name(&lower, "letter") {
        Ok(PageFormat::Letter)
    } else if is_name(&lower, "legal") {
        Ok(PageFormat::Legal)
    } else {
        let mut m: Vec<char> = Vec::new();
        push_str(&mut m, "unsupported page format '");
        push_chars(&mut m, &lower);
        push_str(&mut m, "'");
        Err(string_from_chars(&m))
    }
}

impl PdfBuildOptions {
    /// The page layout a conversion uses: none is set (the converter's default applies)
    /// unless a format or landscape is asked for; a landscape request without a format
    /// turns A4.
    pub open spec fn layout_spec(&self) -> Result<Option<PageLayout>, Seq<char>> {
        if self.page.format is Some || self.page.landscape {
            let fmt = match self.page.format {
                Some(f) => page_format_of(f@),
                None => Ok(PageFormat::A4),
            };
            match fmt {
                Ok(f) => Ok(Some(PageLayout { format: f, landscape: self.page.landscape })),
                Err(e) => Err(e),
            }
        } else {
            Ok(None)
        }
    }

    pub fn page_layout(&self) -> (r: Result<Option<PageLayout>, String>)
        ensures
            match (r, self.layout_spec()) {
                (Ok(a), Ok(b)) => a == b,
                (Err(e), Err(f)) => e@ == f,
                _ => false,
            },
    {
        if self.page.format.is_some() || self.page.landscape {
            let format = match &self.page.format {
                Some(f) => page_size_for(f.as_str())?,
                None => PageFormat::A4,
            };
            Ok(Some(PageLayout { format, landscape: self.page.landscape }))
        } else {
            Ok(None)
        }
    }
}

/// The layout follows the request: the orientation is always the one asked for; a named
/// format gives the paper size that name stands for, and landscape alone gives A4; with
/// neither, no layout is set.
pub proof fn lemma_layout_follows_request(o: PdfBuildOptions)
    ensures
        o.layout_spec() matches Ok(Some(l)) ==> l.landscape == o.page.landscape,
        o.page.format matches Some(f) ==> match (o.layout_spec(), page_format_of(f@)) {
            (Ok(Some(l)), Ok(g)) => l.format == g,
            (Err(e), Err(g)) => e == g,
            _ => false,
        },
        o.page.format is None && o.page.landscape ==> o.layout_spec() == Ok::<
            Option<PageLayout>,
            Seq<char>,
        >(Some(PageLayout { format: PageFormat::A4, landscape: true })),
        o.page.format is None && !o.page.landscape ==> o.layout_spec() == Ok::<
            Option<PageLayout>,
            Seq<char>,
        >(None),
{
}

/// Converts HTML with the converter's defaults (`ironpress::html_to_pdf`), the error as
/// its `Debug` text.
/// Trusted: a successful result starts with the PDF header `%PDF-`, which `ironpress`
/// writes before anything else. Nothing more is stated: the conversion also reads the
/// fonts installed on the machine.
#[verifier::external_body]
fn ironpress_html_to_pdf(html: &str) -> (r: Result<Vec<u8>, String>)
    ensures
        r matches Ok(v) ==> v@.len() >= 5 && v@.take(5) == seq![37u8, 80u8, 68u8, 70u8, 45u8],
{
    ironpress::html_to_pdf(html).map_err(|e| format!("{e:?}"))
}

/// Converts HTML to a PDF with default page settings (A4, one-inch margins).
pub fn html_to_pdf(html: &str) -> (r: Result<Vec<u8>, String>)
    ensures
        r matches Ok(v) ==> v@.len() >= 5 && v@.take(5) == seq![37u8, 80u8, 68u8, 70u8, 45u8],
        r matches Err(e) ==> e@.len() >= "html_to_pdf failed: "@.len() && e@.take(
            "html_to_pdf failed: "@.len() as int,
        ) == "html_to_pdf failed: "@,
{
    match ironpress_html_to_pdf(html) {
        Ok(v) => Ok(v),
        Err(detail) => {
            let mut m: Vec<char> = Vec::new();
            push_str(&mut m, "html_to_pdf failed: ");
            let d = chars_of(detail.as_str());
            push_chars(&mut m, &d);
            assert(m@.take("html_to_pdf failed: "@.len() as int) == "html_to_pdf failed: "@);
            Err(string_from_chars(&m))
        },
    }
}

} // verus!
