//! What holds of every name that the library gives to a sub-array: the
//! sub-array driver accepts it.

use vstd::prelude::*;
use crate::mdadm::{byte_len, is_device_path, is_valid_name, stripped_name, DEV_PREFIX, MAX_NAME_BYTES};
use crate::names::{is_alphanumeric, is_md_name, is_random_suffix, MD_PREFIX, MD_SUFFIX_LEN};
use crate::text::{occurs_at, trimmed_start};

verus! {

/// Letters and digits are ASCII.
proof fn lemma_suffix_is_ascii(suffix: Seq<char>, length: int)
    requires
        is_random_suffix(suffix, length),
    ensures
        vstd::utf8::is_ascii_chars(suffix),
{
    assert forall|i: int| 0 <= i < suffix.len() implies '\0' <= #[trigger] suffix[i] <= '\u{7f}' by {
        assert(is_alphanumeric(suffix[i]));
    }
}

/// A fresh name of a sub-array is a device path, and what is left of it
/// once its prefixes are taken off is `hyraid_md_` and its ten letters and
/// digits: twenty bytes, which the driver accepts.
pub proof fn lemma_md_names_are_valid(name: Seq<char>)
    requires
        is_md_name(name),
    ensures
        is_device_path(name),
        stripped_name(name) == name.skip(8),
        byte_len(stripped_name(name)) == 20,
        is_valid_name(name),
{
    reveal_strlit("/dev/md/hyraid_md_");
    reveal_strlit("/dev/");
    reveal_strlit("md");
    reveal_strlit("/");
    reveal_with_fuel(trimmed_start, 3);
    let suffix = choose|suffix: Seq<char>|
        is_random_suffix(suffix, MD_SUFFIX_LEN as int) && name == MD_PREFIX@ + suffix;
    let prefix = MD_PREFIX@;
    assert(prefix.len() == 18);
    assert(name.len() == 28);
    assert forall|i: int| 0 <= i < 18 implies name[i] == prefix[i] by {}
    let dev = DEV_PREFIX@;
    assert(name.subrange(0, 5) =~= dev);
    assert(is_device_path(name));
    // Off comes "/dev/", once.
    let a = name.skip(5);
    assert(occurs_at(name, 0, dev));
    assert(a[0] == 'm');
    assert(!occurs_at(a, 0, dev)) by {
        if occurs_at(a, 0, dev) {
            assert(a.subrange(0, 5)[0] == dev[0]);
        }
    }
    assert(trimmed_start(name, dev) == a);
    // Off comes "md", once.
    let md = "md"@;
    let b = a.skip(2);
    assert(a.subrange(0, 2) =~= md);
    assert(occurs_at(a, 0, md));
    assert(b[0] == '/');
    assert(!occurs_at(b, 0, md)) by {
        if occurs_at(b, 0, md) {
            assert(b.subrange(0, 2)[0] == md[0]);
        }
    }
    assert(trimmed_start(a, md) == b);
    // Off comes "/", once.
    let slash = "/"@;
    let c = b.skip(1);
    assert(b.subrange(0, 1) =~= slash);
    assert(occurs_at(b, 0, slash));
    assert(c[0] == 'h');
    assert(!occurs_at(c, 0, slash)) by {
        if occurs_at(c, 0, slash) {
            assert(c.subrange(0, 1)[0] == slash[0]);
        }
    }
    assert(trimmed_start(b, slash) == c);
    assert(c =~= name.skip(8));
    assert(stripped_name(name) == c);
    // What is left is ASCII, so it takes as many bytes as it has characters.
    lemma_suffix_is_ascii(suffix, MD_SUFFIX_LEN as int);
    assert forall|i: int| 0 <= i < c.len() implies '\0' <= #[trigger] c[i] <= '\u{7f}' by {
        if i < 10 {
            assert(c[i] == prefix[i + 8]);
        } else {
            assert(c[i] == suffix[i - 10]);
        }
    }
    vstd::utf8::is_ascii_chars_encode_utf8(c);
    assert(byte_len(c) == 20);
    assert(MAX_NAME_BYTES == 32);
}

} // verus!
