//! `POST /v1/images`: reading the request, choosing pages, and building the answer.
use vstd::prelude::*;
use crate::decimal::{dec_string, push_decimal};
use crate::error::AppError;
use crate::models::dto::{pages_result, parse_pages, ImageFormat, ImageItem, page_in_range};
use crate::services::codec::{base64_decode, base64_encode, base64_standard_decode, base64_standard_encode};
use crate::services::pdf_to_image::RenderedImage;
use crate::text::{
    ascii_lower_seq, ascii_lowercase, chars_eq, chars_of, push_str, split_chars,
    is_white_space, lemma_split_on_append_plain, lemma_split_on_plain, lemma_split_on_push_sep,
    split_on, starts_with_chars, strip_both, strip_both_chars, string_from_chars, trim,
    trimmed_chars, views,
};

verus! {

/// Whether a request's content type announces a multipart upload.
pub fn is_multipart(content_type: &str) -> (b: bool)
    ensures
        b == (content_type@.len() >= "multipart/form-data"@.len() && content_type@.take(
            "multipart/form-data"@.len() as int,
        ) == "multipart/form-data"@),
{
    let ct = chars_of(content_type);
    let prefix = chars_of("multipart/form-data");
    starts_with_chars(&ct, &prefix)
}

/// The format a multipart `format` field asks for: `jpeg` in any ASCII case, else PNG.
pub fn format_from_field(value: &str) -> (f: ImageFormat)
    ensures
        (f == ImageFormat::Jpeg) == (ascii_lower_seq(value@) == ascii_lower_seq("jpeg"@)),
        f == ImageFormat::Jpeg || f == ImageFormat::Png,
{
    let v = ascii_lowercase(&chars_of(value));
    let jpeg = ascii_lowercase(&chars_of("jpeg"));
    if chars_eq(&v, &jpeg) {
        ImageFormat::Jpeg
    } else {
        ImageFormat::Png
    }
}

/// The boundary named by the first `;`-separated parameter that, trimmed, starts with
/// `boundary=`; surrounding double quotes are removed.
pub open spec fn boundary_in(pieces: Seq<Seq<char>>) -> Option<Seq<char>>
    decreases pieces.len(),
{
    if pieces.len() == 0 {
        None
    } else {
        let t = trim(pieces[0]);
        let p = "boundary="@;
        if t.len() >= p.len() && t.take(p.len() as int) == p {
            Some(strip_both(t.skip(p.len() as int), '"'))
        } else {
            boundary_in(pieces.drop_first())
        }
    }
}

/// The multipart boundary of a content type.
pub fn multer_boundary(content_type: &str) -> (r: Option<String>)
    ensures
        match (r, boundary_in(split_on(content_type@, ';'))) {
            (Some(b), Some(c)) => b@ == c,
            (None, None) => true,
            _ => false,
        },
{
    let ct = chars_of(content_type);
    let pieces = split_chars(&ct, ';');
    let prefix = chars_of("boundary=");
    let mut i: usize = 0;
    assert(views(pieces@).skip(0) == views(pieces@));
    while i < pieces.len()
        invariant
            i <= pieces.len(),
            prefix@ == "boundary="@,
            boundary_in(split_on(content_type@, ';')) == boundary_in(views(pieces@).skip(i as int)),
        decreases pieces.len() - i,
    {
        let ghost rest = views(pieces@).skip(i as int);
        assert(rest[0] == pieces@[i as int]@);
        assert(rest.drop_first() == views(pieces@).skip(i + 1));
        let t = trimmed_chars(&pieces[i]);
        if starts_with_chars(&t, &prefix) {
            let value = strip_both_chars(&t, prefix.len(), t.len(), '"');
            assert(t@.skip(prefix@.len() as int) == t@.subrange(prefix@.len() as int, t@.len() as int));
            return Some(string_from_chars(&value));
        }
        i = i + 1;
    }
    None
}

/// The piece ` boundary=` followed by `v` (holding no `;`) names `v` as the boundary, when `v`
/// does not end in white space and neither starts nor ends with `"`.
proof fn lemma_boundary_piece(v: Seq<char>)
    requires
        forall|i: int| 0 <= i < v.len() ==> v[i] != ';',
        v.len() > 0 ==> !is_white_space(v.last()) && v[0] != '"' && v.last() != '"',
    ensures
        boundary_in(seq![" boundary="@ + v]) == Some(v),
{
    reveal_strlit(" boundary=");
    reveal_strlit("boundary=");
    let y = " boundary="@ + v;
    let z = "boundary="@ + v;
    assert(y.drop_first() == z);
    assert(!is_white_space(z[0]));
    assert(crate::text::trim_start(z) == z);
    assert(crate::text::trim_start(y) == z);
    assert(z.last() == if v.len() > 0 { v.last() } else { '=' });
    assert(crate::text::trim_end(z) == z);
    assert(trim(y) == z);
    assert(z.take(9) == "boundary="@);
    assert(z.skip(9) == v);
    assert(crate::text::strip_start(v, '"') == v);
    assert(crate::text::strip_end(v, '"') == v);
    assert(seq![y][0] == y);
}

/// In a content type `a; boundary=v`, where `a` holds no `;` and is no `boundary=`
/// parameter itself, the boundary is `v` character for character, when `v` holds no `;`,
/// does not end in white space and neither starts nor ends with `"`; written as
/// `boundary="v"`, it is `v` without the quotes.
pub proof fn lemma_boundary_is_parameter_value(a: Seq<char>, v: Seq<char>)
    requires
        forall|i: int| 0 <= i < a.len() ==> a[i] != ';',
        !(trim(a).len() >= "boundary="@.len() && trim(a).take("boundary="@.len() as int) == "boundary="@),
        forall|i: int| 0 <= i < v.len() ==> v[i] != ';',
        v.len() > 0 ==> !is_white_space(v.last()) && v[0] != '"' && v.last() != '"',
    ensures
        boundary_in(split_on(a + "; boundary="@ + v, ';')) == Some(v),
        boundary_in(split_on(a + "; boundary=\""@ + v + "\""@, ';')) == Some(v),
{
    reveal_strlit("; boundary=");
    reveal_strlit(" boundary=");
    reveal_strlit("; boundary=\"");
    reveal_strlit(" boundary=\"");
    reveal_strlit("\"");
    reveal_strlit("boundary=");
    lemma_split_on_plain(a, ';');
    lemma_split_on_push_sep(a, ';');
    // Unquoted.
    let y = " boundary="@ + v;
    assert forall|i: int| 0 <= i < y.len() implies y[i] != ';' by {
        if i >= 10 {
            assert(y[i] == v[i - 10]);
        }
    }
    assert(a + "; boundary="@ + v == a.push(';') + y);
    lemma_split_on_append_plain(a.push(';'), y, ';');
    assert(split_on(a.push(';'), ';') == seq![a, Seq::<char>::empty()]);
    assert(Seq::<char>::empty() + y == y);
    let p1 = split_on(a + "; boundary="@ + v, ';');
    assert(p1 == seq![a, y]);
    assert(p1.drop_first() == seq![y]);
    lemma_boundary_piece(v);
    // Quoted.
    let q = seq!['"'] + v + seq!['"'];
    let yq = " boundary=\""@ + v + "\""@;
    assert(yq == " boundary="@ + q);
    assert forall|i: int| 0 <= i < yq.len() implies yq[i] != ';' by {
        if 11 <= i < yq.len() - 1 {
            assert(yq[i] == v[i - 11]);
        }
    }
    assert(a + "; boundary=\""@ + v + "\""@ == a.push(';') + yq);
    lemma_split_on_append_plain(a.push(';'), yq, ';');
    assert(Seq::<char>::empty() + yq == yq);
    let p2 = split_on(a + "; boundary=\""@ + v + "\""@, ';');
    assert(p2 == seq![a, yq]);
    assert(p2.drop_first() == seq![yq]);
    let z = "boundary="@ + q;
    assert(yq.drop_first() == z);
    assert(!is_white_space(z[0]));
    assert(crate::text::trim_start(z) == z);
    assert(crate::text::trim_start(yq) == z);
    assert(z.last() == '"');
    assert(crate::text::trim_end(z) == z);
    assert(trim(yq) == z);
    assert(z.take(9) == "boundary="@);
    assert(z.skip(9) == q);
    assert(q.drop_first() == v + seq!['"']);
    if v.len() > 0 {
        assert((v + seq!['"'])[0] == v[0]);
        assert(crate::text::strip_start(v + seq!['"'], '"') == v + seq!['"']);
        assert((v + seq!['"']).drop_last() == v);
        assert(crate::text::strip_end(v, '"') == v);
        assert(crate::text::strip_end(v + seq!['"'], '"') == v);
    } else {
        assert(v + seq!['"'] == seq!['"']);
        assert(seq!['"'].drop_first() == Seq::<char>::empty());
        assert(crate::text::strip_start(Seq::<char>::empty(), '"') == Seq::<char>::empty());
        assert(crate::text::strip_start(seq!['"'], '"') == Seq::<char>::empty());
        assert(crate::text::strip_start(v + seq!['"'], '"') == v);
        assert(crate::text::strip_end(v, '"') == v);
    }
    assert(crate::text::strip_start(q, '"') == crate::text::strip_start(v + seq!['"'], '"'));
    assert(strip_both(q, '"') == v);
    assert(seq![yq][0] == yq);
    assert(boundary_in(seq![yq]) == Some(v));
    assert(p2[0] == a);
    assert(boundary_in(p2) == boundary_in(p2.drop_first()));
}

/// Which pages to render: an explicit selection must not exceed `max_pages`; without one,
/// the first `max_pages` pages of the document are taken.
pub open spec fn selection_spec(spec: Seq<char>, total: usize, max_pages: usize) -> Result<Seq<usize>, Seq<char>> {
    match pages_result(spec, total) {
        Err(e) => Err(e),
        Ok(v) => if trim(spec).len() == 0 {
            if v.len() > max_pages {
                Ok(v.take(max_pages as int))
            } else {
                Ok(v)
            }
        } else if v.len() > max_pages {
            Err("too many pages requested: "@ + dec_string(v.len()) + " (max "@ + dec_string(
                max_pages as nat,
            ) + ")"@)
        } else {
            Ok(v)
        },
    }
}

/// Without a selection, the first pages of the document are taken, as many as the limit
/// allows and in order; an explicit selection is kept as it is when it is within the limit
/// and refused when it is over it.
pub proof fn lemma_selection_limits(spec: Seq<char>, total: usize, max_pages: usize)
    ensures
        trim(spec).len() == 0 ==> (selection_spec(spec, total, max_pages) matches Ok(v)
            && v.len() == (if total <= max_pages { total as int } else { max_pages as int })
            && forall|i: int| 0 <= i < v.len() ==> #[trigger] v[i] == i + 1),
        trim(spec).len() != 0 ==> match pages_result(spec, total) {
            Ok(w) => if w.len() <= max_pages {
                selection_spec(spec, total, max_pages) == Ok::<Seq<usize>, Seq<char>>(w)
            } else {
                selection_spec(spec, total, max_pages) is Err
            },
            Err(e) => selection_spec(spec, total, max_pages) == Err::<Seq<usize>, Seq<char>>(e),
        },
{
    crate::models::dto::lemma_page_selection_text(0, 0, total, spec);
}

/// Chooses the pages of a `total`-page document to render.
pub fn select_pages(spec: &str, total: usize, max_pages: usize) -> (r: Result<Vec<usize>, String>)
    ensures
        match (r, selection_spec(spec@, total, max_pages)) {
            (Ok(v), Ok(w)) => v@ == w,
            (Err(e), Err(f)) => e@ == f,
            _ => false,
        },
        r matches Ok(v) ==> v@.len() <= max_pages && v@.no_duplicates() && forall|i: int|
            0 <= i < v@.len() ==> page_in_range(#[trigger] v@[i], total),
{
    let mut selected = parse_pages(spec, total)?;
    let s = chars_of(spec);
    let t = trimmed_chars(&s);
    if t.len() == 0 {
        let ghost before = selected@;
        selected.truncate(max_pages);
        assert forall|i: int| 0 <= i < selected@.len() implies page_in_range(#[trigger] selected@[i], total) by {
            assert(selected@[i] == before[i]);
        }
        assert forall|i: int, j: int| 0 <= i < selected@.len() && 0 <= j < selected@.len() && i != j implies selected@[i] != selected@[j] by {
            assert(selected@[i] == before[i]);
            assert(selected@[j] == before[j]);
        }
        return Ok(selected);
    }
    if selected.len() > max_pages {
        let mut m: Vec<char> = Vec::new();
        push_str(&mut m, "too many pages requested: ");
        push_decimal(&mut m, selected.len() as u64);
        push_str(&mut m, " (max ");
        push_decimal(&mut m, max_pages as u64);
        push_str(&mut m, ")");
        return Err(string_from_chars(&m));
    }
    Ok(selected)
}

/// The PDF of a JSON request, from its base64 text.
pub fn decode_pdf_base64(pdf_base64: &str) -> (r: Result<Vec<u8>, AppError>)
    ensures
        match (r, base64_standard_decode(pdf_base64@)) {
            (Ok(v), Ok(w)) => v@ == w,
            (Err(AppError::Validation(m)), Err(f)) => m@ == "invalid base64: "@ + f,
            _ => false,
        },
{
    match base64_decode(pdf_base64) {
        Ok(v) => Ok(v),
        Err(e) => {
            let mut m: Vec<char> = Vec::new();
            push_str(&mut m, "invalid base64: ");
            push_str(&mut m, e.as_str());
            Err(AppError::Validation(string_from_chars(&m)))
        },
    }
}

/// A multipart upload must carry a `file` part.
pub fn require_file(file: Option<Vec<u8>>) -> (r: Result<Vec<u8>, AppError>)
    ensures
        match file {
            Some(f) => r == Ok::<Vec<u8>, AppError>(f),
            None => r matches Err(AppError::Validation(m)) && m@ == "multipart `file` part required"@,
        },
{
    match file {
        Some(f) => Ok(f),
        None => Err(AppError::Validation(String::from_str("multipart `file` part required"))),
    }
}

/// Where a rendered page is stored: `images/{folder}/page-{page}.{ext}`.
pub fn image_storage_key(folder: &str, page: usize, format: ImageFormat) -> (key: String)
    ensures
        key@ == "images/"@ + folder@ + "/page-"@ + dec_string(page as nat) + "."@ + format.ext_spec(),
{
    let mut out: Vec<char> = Vec::new();
    push_str(&mut out, "images/");
    push_str(&mut out, folder);
    push_str(&mut out, "/page-");
    push_decimal(&mut out, page as u64);
    push_str(&mut out, ".");
    push_str(&mut out, format.ext());
    string_from_chars(&out)
}

/// A rendered page answered inline, its image in base64.
pub fn inline_image_item(img: &RenderedImage, format: ImageFormat) -> (item: ImageItem)
    requires
        (img.bytes@.len() + 2) / 3 * 4 <= usize::MAX,
    ensures
        item.page == img.page,
        item.width == img.width,
        item.height == img.height,
        item.format == format,
        item.data matches Some(d) && d@ == base64_standard_encode(img.bytes@),
        item.download_url is None,
{
    let data = base64_encode(img.bytes.as_slice());
    ImageItem {
        page: img.page,
        width: img.width,
        height: img.height,
        format,
        data: Some(data),
        download_url: None,
    }
}

/// A rendered page answered by its signed download link.
pub fn url_image_item(img: &RenderedImage, format: ImageFormat, download_url: String) -> (item: ImageItem)
    ensures
        item.page == img.page,
        item.width == img.width,
        item.height == img.height,
        item.format == format,
        item.data is None,
        item.download_url == Some(download_url),
{
    ImageItem {
        page: img.page,
        width: img.width,
        height: img.height,
        format,
        data: None,
        download_url: Some(download_url),
    }
}

} // verus!

verus! {

/// The pages of an uploaded PDF to render: the document is loaded to count its pages,
/// then `select_pages` decides.
pub fn pages_to_render(pdf: &[u8], spec: &str, max_pages: usize) -> (r: Result<Vec<usize>, String>)
    ensures
        match crate::services::pdf_to_image::pdf_page_count_of(pdf@) {
            Err(f) => r matches Err(e) && e@ == "failed to parse PDF: "@ + f,
            Ok(total) => match (r, selection_spec(spec@, total, max_pages)) {
                (Ok(v), Ok(w)) => v@ == w,
                (Err(e), Err(f)) => e@ == f,
                _ => false,
            },
        },
{
    let total = crate::services::pdf_to_image::pdf_page_count(pdf)?;
    select_pages(spec, total, max_pages)
}

} // verus!

verus! {

/// The key `image_storage_key` gives a page.
pub open spec fn image_key_spec(folder: Seq<char>, page: usize, format: ImageFormat) -> Seq<char> {
    "images/"@ + folder + "/page-"@ + dec_string(page as nat) + "."@ + format.ext_spec()
}

/// The content type each image format is served with.
pub open spec fn format_content_type(format: ImageFormat) -> Seq<char> {
    match format {
        ImageFormat::Png => "image/png"@,
        ImageFormat::Jpeg => "image/jpeg"@,
    }
}

proof fn lemma_dec_string_ends_in_digit(n: nat)
    ensures
        dec_string(n).len() >= 1,
        '0' <= dec_string(n).last() <= '9',
    decreases n,
{
    if n >= 10 {
        lemma_dec_string_ends_in_digit(n / 10);
    }
}

/// A page stored under `image_storage_key` is served back with the content type of the
/// format it was rendered in.
pub proof fn lemma_image_key_content_type(folder: Seq<char>, page: usize, format: ImageFormat)
    ensures
        crate::routes::downloads::content_type_spec(image_key_spec(folder, page, format))
            == format_content_type(format),
{
    reveal_strlit(".pdf");
    reveal_strlit(".jpeg");
    reveal_strlit(".jpg");
    reveal_strlit("png");
    reveal_strlit("jpeg");
    reveal_strlit(".");
    let digits = dec_string(page as nat);
    lemma_dec_string_ends_in_digit(page as nat);
    let head = "images/"@ + folder + "/page-"@ + digits;
    let key = image_key_spec(folder, page, format);
    assert(head.len() >= 1);
    assert(head.last() == digits.last());
    let n = key.len();
    match format {
        ImageFormat::Png => {
            assert(key == head + "."@ + "png"@);
            assert(key[n - 1] == 'g');
            assert(key[n - 2] == 'n');
            assert(key[n - 3] == 'p');
            assert(key[n - 4] == '.');
            assert(key[n - 5] == head.last());
            assert(key.subrange(n - 4, n as int)[2] != ".pdf"@[2]);
            assert(key.subrange(n - 5, n as int)[0] != ".jpeg"@[0]);
            assert(key.subrange(n - 4, n as int)[1] != ".jpg"@[1]);
        },
        ImageFormat::Jpeg => {
            assert(key == head + "."@ + "jpeg"@);
            assert(key[n - 1] == 'g');
            assert(key[n - 2] == 'e');
            assert(key[n - 3] == 'p');
            assert(key[n - 4] == 'j');
            assert(key[n - 5] == '.');
            assert(key.subrange(n - 4, n as int)[0] != ".pdf"@[0]);
            assert(key.subrange(n - 5, n as int) =~= ".jpeg"@);
        },
    }
}

} // verus!
