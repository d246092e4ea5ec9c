use vstd::prelude::*;
use vstd::string::*;
use crate::layout::text::hex_text;

verus! {

/// True for the bytes of the letters and digits of ASCII.
pub open spec fn is_alphanumeric(byte: u8) -> bool {
    ||| 0x30 <= byte <= 0x39
    ||| 0x41 <= byte <= 0x5A
    ||| 0x61 <= byte <= 0x7A
}

/// What stands for one byte in a percent-encoded text: the letter or digit
/// itself, and for every other byte a `%` and its two hexadecimal digits in
/// upper case.
pub open spec fn encoded_byte(byte: u8) -> Seq<char> {
    if is_alphanumeric(byte) {
        seq![byte as char]
    } else {
        "%"@ + hex_text(byte as nat, 2)
    }
}

/// The percent-encoded text of a sequence of bytes.
pub open spec fn percent_encoded(bytes: Seq<u8>) -> Seq<char>
    decreases bytes.len(),
{
    if bytes.len() == 0 {
        Seq::empty()
    } else {
        encoded_byte(bytes[0]) + percent_encoded(bytes.skip(1))
    }
}

/// Calls `percent_encoding::utf8_percent_encode` with the set
/// `NON_ALPHANUMERIC` and collects what it yields. Trusted: the result is
/// taken to be the UTF-8 bytes of `text` one by one, a letter or digit of
/// ASCII as itself and every other byte as `%` with its two upper-case
/// hexadecimal digits.
#[verifier::external_body]
pub(crate) fn percent_encode(text: &str) -> (r: String)
    ensures
        r@ == percent_encoded(text.spec_bytes()),
{
    percent_encoding::utf8_percent_encode(text, percent_encoding::NON_ALPHANUMERIC).to_string()
}

/// The template with `value` in the place of each `$1`, read from the left.
pub open spec fn expanded(template: Seq<char>, value: Seq<char>) -> Seq<char>
    decreases template.len(),
{
    if template.len() == 0 {
        Seq::empty()
    } else if template.len() >= 2 && template[0] == '$' && template[1] == '1' {
        value + expanded(template.skip(2), value)
    } else {
        seq![template[0]] + expanded(template.skip(1), value)
    }
}

/// The address that a service is asked at for one version.
pub open spec fn spec_request_url(template: Seq<char>, version: Seq<u8>) -> Seq<char> {
    expanded(template, percent_encoded(version))
}

/// The address that a service is asked at for one version: the template
/// with the percent-encoded version in the place of each `$1`.
pub fn request_url(template: &str, version: &str) -> (url: String)
    ensures
        url@ == spec_request_url(template@, version.spec_bytes()),
{
    let encoded = percent_encode(version);
    let length = template.unicode_len();
    let mut url = String::from_str("");
    let mut i: usize = 0;
    proof {
        reveal_strlit("");
        assert(template@.skip(0) =~= template@);
        assert(url@ + expanded(template@, encoded@) =~= expanded(template@, encoded@));
    }
    while i < length
        invariant
            i <= length,
            length == template@.len(),
            url@ + expanded(template@.skip(i as int), encoded@) == expanded(template@, encoded@),
        decreases length - i,
    {
        let ghost rest = template@.skip(i as int);
        let ghost before = url@;
        if i + 1 < length && template.get_char(i) == '$' && template.get_char(i + 1) == '1' {
            url.append(encoded.as_str());
            proof {
                assert(rest.skip(2) =~= template@.skip(i + 2));
                assert(before + (encoded@ + expanded(rest.skip(2), encoded@)) =~= (before
                    + encoded@) + expanded(rest.skip(2), encoded@));
            }
            i = i + 2;
        } else {
            url.append(template.substring_char(i, i + 1));
            proof {
                assert(template@.subrange(i as int, i + 1) =~= seq![rest[0]]);
                assert(rest.skip(1) =~= template@.skip(i + 1));
                assert(before + (seq![rest[0]] + expanded(rest.skip(1), encoded@)) =~= (before
                    + seq![rest[0]]) + expanded(rest.skip(1), encoded@));
            }
            i = i + 1;
        }
    }
    proof {
        assert(template@.skip(length as int) =~= Seq::<char>::empty());
        assert(url@ + Seq::<char>::empty() =~= url@);
    }
    url
}

/// A configuration is given as a JSON text, or as the path of a file that
/// holds one: a path is what ends in `.json`.
pub open spec fn is_file_path(input: Seq<char>) -> bool {
    input.len() >= 5 && input.skip(input.len() - 5) == ".json"@
}

/// Tells whether a configuration is given as the path of a file.
pub fn names_file(input: &str) -> (r: bool)
    ensures
        r == is_file_path(input@),
{
    let length = input.unicode_len();
    proof {
        reveal_strlit(".json");
    }
    if length < 5 {
        return false;
    }
    let start = length - 5;
    let r = input.get_char(start) == '.' && input.get_char(start + 1) == 'j' && input.get_char(
        start + 2,
    ) == 's' && input.get_char(start + 3) == 'o' && input.get_char(start + 4) == 'n';
    proof {
        let tail = input@.skip(length - 5);
        assert(forall|k: int| 0 <= k < 5 ==> tail[k] == input@[start + k]);
        if r {
            assert(tail =~= ".json"@);
        } else if tail == ".json"@ {
            assert(tail[0] == '.' && tail[1] == 'j' && tail[2] == 's' && tail[3] == 'o'
                && tail[4] == 'n');
        }
    }
    r
}

} // verus!
