//! Media URL synthesis from a stored image file name.
//!
//! The file name convention is `prefix_group...`: the characters between the
//! first and second `_` name the group the asset is filed under. A name with
//! at least one `_` maps to `{domain}/images/{group}/{file_name}`; a name
//! without one maps to `{domain}/images/{file_name}`.

use vstd::prelude::*;

use crate::text::find_from;
use crate::text::find_char_from;
use crate::text::lemma_find_from;

verus! {

/// The URL synthesized for file name `f` under base `domain`.
pub open spec fn media_url(domain: Seq<char>, f: Seq<char>) -> Seq<char> {
    let a = find_from(f, 0, '_');
    if a < f.len() {
        domain + "/images/"@ + f.subrange(a + 1, find_from(f, a + 1, '_')) + "/"@ + f
    } else {
        domain + "/images/"@ + f
    }
}

/// Executable counterpart of [`media_url`].
pub fn make_image_url(domain: &str, file_name: &str) -> (r: String)
    ensures
        r@ == media_url(domain@, file_name@),
{
    let n = file_name.unicode_len();
    let a = find_char_from(file_name, 0, '_');
    let mut url = domain.to_owned();
    url.append("/images/");
    if a < n {
        proof {
            lemma_find_from(file_name@, a + 1, '_');
        }
        let b = find_char_from(file_name, a + 1, '_');
        url.append(file_name.substring_char(a + 1, b));
        url.append("/");
    }
    url.append(file_name);
    proof {
        assert(url@ =~= media_url(domain@, file_name@));
    }
    url
}

} // verus!
