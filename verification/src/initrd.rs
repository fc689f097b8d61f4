//! The initial ramdisk: a ustar archive handed over by the bootloader.
//!
//! Each member starts with a 512-byte header: the name is the first 100
//! bytes up to a NUL, the size is an octal number at bytes 124..136 and the
//! type flag is byte 156.  The data follows, padded to a multiple of 512
//! bytes.  An all-zero name (or a header that does not fit) ends the
//! archive.  Only regular files (flag `'0'` or NUL) are listed; names lose a
//! leading `"./"`, and a name that is not UTF-8 reads as `"?"`.

use vstd::prelude::*;
use vstd::utf8::{valid_utf8, decode_utf8};
use crate::text::str_eq;

verus! {

/// Size of a tar header and of the blocks that data is padded to.
pub const BLOCK: usize = 512;

/// `b` is an ASCII octal digit.
pub open spec fn is_octal(b: u8) -> bool {
    48 <= b <= 55
}

/// Length of the leading run of octal digits of `f`.
pub open spec fn octal_run(f: Seq<u8>) -> nat
    decreases f.len(),
{
    if f.len() == 0 || !is_octal(f[0]) {
        0
    } else {
        1 + octal_run(f.drop_first())
    }
}

/// The number that the octal digits `d` spell, most significant first.
pub open spec fn octal_of(d: Seq<u8>) -> nat
    decreases d.len(),
{
    if d.len() == 0 {
        0
    } else {
        octal_of(d.drop_last()) * 8 + (d.last() - 48) as nat
    }
}

/// The value of the octal number at the start of `f`; parsing stops at the
/// first byte that is not an octal digit.
pub open spec fn octal_value(f: Seq<u8>) -> nat {
    octal_of(f.take(octal_run(f) as int))
}

proof fn lemma_octal_run(f: Seq<u8>)
    ensures
        octal_run(f) <= f.len(),
        forall|k: int| 0 <= k < octal_run(f) ==> is_octal(#[trigger] f[k]),
        octal_run(f) < f.len() ==> !is_octal(f[octal_run(f) as int]),
    decreases f.len(),
{
    if f.len() > 0 && is_octal(f[0]) {
        lemma_octal_run(f.drop_first());
        assert forall|k: int| 0 <= k < octal_run(f) implies is_octal(#[trigger] f[k]) by {
            if k > 0 {
                assert(f[k] == f.drop_first()[k - 1]);
            }
        }
    }
}

proof fn lemma_octal_take_step(f: Seq<u8>, i: int)
    requires
        0 <= i < f.len(),
    ensures
        octal_of(f.take(i + 1)) == octal_of(f.take(i)) * 8 + (f[i] - 48) as nat,
{
    assert(f.take(i + 1).drop_last() =~= f.take(i));
}

proof fn lemma_octal_monotone(f: Seq<u8>, i: int, j: int)
    requires
        0 <= i <= j <= f.len(),
        forall|k: int| 0 <= k < j ==> is_octal(#[trigger] f[k]),
    ensures
        octal_of(f.take(i)) <= octal_of(f.take(j)),
    decreases j - i,
{
    if i < j {
        lemma_octal_monotone(f, i, j - 1);
        lemma_octal_take_step(f, j - 1);
    }
}

/// Parses the octal number at the start of `field`.
pub fn parse_octal(field: &[u8]) -> (value: usize)
    requires
        octal_value(field@) <= usize::MAX,
    ensures
        value == octal_value(field@),
{
    proof { lemma_octal_run(field@); }
    let ghost run = octal_run(field@);
    let mut value: usize = 0;
    let mut i: usize = 0;
    while i < field.len() && field[i] >= 48 && field[i] <= 55
        invariant
            i <= run,
            run <= field@.len(),
            run == octal_run(field@),
            octal_value(field@) <= usize::MAX,
            forall|k: int| 0 <= k < run ==> is_octal(#[trigger] field@[k]),
            run < field@.len() ==> !is_octal(field@[run as int]),
            value == octal_of(field@.take(i as int)),
        decreases field.len() - i,
    {
        let byte = field[i];
        proof {
            lemma_octal_take_step(field@, i as int);
            lemma_octal_monotone(field@, i as int + 1, run as int);
        }
        value = value * 8 + (byte - 48) as usize;
        i = i + 1;
    }
    assert(i == run);
    value
}

/// Index of the first NUL in `s`, or its length when there is none.
pub open spec fn first_nul(s: Seq<u8>) -> nat
    decreases s.len(),
{
    if s.len() == 0 || s[0] == 0 {
        0
    } else {
        1 + first_nul(s.drop_first())
    }
}

pub proof fn lemma_first_nul(s: Seq<u8>)
    ensures
        first_nul(s) <= s.len(),
        forall|k: int| 0 <= k < first_nul(s) ==> #[trigger] s[k] != 0,
        first_nul(s) < s.len() ==> s[first_nul(s) as int] == 0,
    decreases s.len(),
{
    if s.len() > 0 && s[0] != 0 {
        lemma_first_nul(s.drop_first());
        assert forall|k: int| 0 <= k < first_nul(s) implies #[trigger] s[k] != 0 by {
            if k > 0 {
                assert(s[k] == s.drop_first()[k - 1]);
            }
        }
    }
}

/// The characters that `raw` decodes to, or `"?"` when it is not UTF-8.
pub open spec fn decode_or_question(raw: Seq<u8>) -> Seq<char> {
    if valid_utf8(raw) {
        decode_utf8(raw)
    } else {
        seq!['?']
    }
}

/// `s` without a leading `"./"`.
pub open spec fn strip_dot_slash(s: Seq<char>) -> Seq<char> {
    if s.len() >= 2 && s[0] == '.' && s[1] == '/' {
        s.skip(2)
    } else {
        s
    }
}

/// Name of the member whose header starts at `h`.
pub open spec fn entry_name(tar: Seq<u8>, h: int) -> Seq<char> {
    let field = tar.subrange(h, h + 100);
    strip_dot_slash(decode_or_question(field.take(first_nul(field) as int)))
}

/// Data size of the member whose header starts at `h`.
pub open spec fn entry_size(tar: Seq<u8>, h: int) -> nat {
    octal_value(tar.subrange(h + 124, h + 136))
}

/// Offset of the header after the member whose header starts at `h`.
pub open spec fn entry_next(tar: Seq<u8>, h: int) -> int {
    h + 512 + (entry_size(tar, h) + 511) / 512 * 512
}

/// The member whose header starts at `h` is a regular file.
pub open spec fn entry_regular(tar: Seq<u8>, h: int) -> bool {
    tar[h + 156] == 48 || tar[h + 156] == 0
}

/// The archive ends at offset `off`: no full header fits, or the name is empty.
pub open spec fn at_end(tar: Seq<u8>, off: int) -> bool {
    off + 512 > tar.len() || tar[off] == 0
}

/// Distance left to the end of the archive.
pub open spec fn remaining(tar: Seq<u8>, off: int) -> nat {
    if off <= tar.len() { (tar.len() - off) as nat } else { 0 }
}

/// Header offset of the first regular file at or after `off`.
pub open spec fn next_regular(tar: Seq<u8>, off: int) -> Option<int>
    decreases remaining(tar, off),
{
    if off < 0 || at_end(tar, off) {
        None
    } else if entry_regular(tar, off) {
        Some(off)
    } else {
        next_regular(tar, entry_next(tar, off))
    }
}

/// Header offsets of all regular files from `off` on, in archive order.
pub open spec fn regular_headers(tar: Seq<u8>, off: int) -> Seq<int>
    decreases remaining(tar, off),
{
    if off < 0 || at_end(tar, off) {
        Seq::empty()
    } else if entry_regular(tar, off) {
        seq![off] + regular_headers(tar, entry_next(tar, off))
    } else {
        regular_headers(tar, entry_next(tar, off))
    }
}

/// The data of the regular member at `h` lies inside the archive.
pub open spec fn data_fits(tar: Seq<u8>, h: int) -> bool {
    h + 512 + entry_size(tar, h) <= tar.len()
}

/// Every regular member from `off` on has its data inside the archive.
pub open spec fn all_fit(tar: Seq<u8>, off: int) -> bool
    decreases remaining(tar, off),
{
    if off < 0 || at_end(tar, off) {
        true
    } else {
        (entry_regular(tar, off) ==> data_fits(tar, off)) && all_fit(tar, entry_next(tar, off))
    }
}

/// Offsets up to the end of the archive, plus a member's worth of slack,
/// fit in a `usize`.
pub open spec fn addressable(tar: Seq<u8>) -> bool {
    tar.len() + 0x40_0000_0000 <= usize::MAX
}

/// A member of the archive.
pub struct File<'a> {
    pub name: &'a str,
    pub data: &'a [u8],
}

/// `core::str::from_utf8`: the bytes as a string slice when they are valid
/// UTF-8.  Claimed: the result is present exactly when the bytes are valid
/// UTF-8, and then holds the characters they decode to.
#[verifier::external_body]
pub(crate) fn str_from_utf8(bytes: &[u8]) -> (r: Option<&str>)
    ensures
        r is Some <==> valid_utf8(bytes@),
        r matches Some(s) ==> s@ == decode_utf8(bytes@),
{
    core::str::from_utf8(bytes).ok()
}

/// `s` without a leading `"./"`.
pub fn strip_dot_slash_str<'a>(s: &'a str) -> (r: &'a str)
    ensures
        r@ == strip_dot_slash(s@),
{
    let n = s.unicode_len();
    if n >= 2 && s.get_char(0) == '.' && s.get_char(1) == '/' {
        let r = s.substring_char(2, n);
        assert(r@ =~= s@.skip(2));
        r
    } else {
        s
    }
}

/// Decodes the name field of the header at `h`.
fn header_name<'a>(tar: &'a [u8], h: usize) -> (name: &'a str)
    requires
        h + 512 <= tar@.len(),
        addressable(tar@),
    ensures
        name@ == entry_name(tar@, h as int),
{
    let field = &tar[h..h + 100];
    proof { lemma_first_nul(field@); }
    let mut end: usize = 0;
    while end < 100 && field[end] != 0
        invariant
            end <= 100,
            field@.len() == 100,
            end <= first_nul(field@),
            first_nul(field@) < 100 ==> field@[first_nul(field@) as int] == 0,
            forall|k: int| 0 <= k < first_nul(field@) ==> #[trigger] field@[k] != 0,
        decreases 100 - end,
    {
        end = end + 1;
    }
    assert(end == first_nul(field@));
    let raw = &field[0..end];
    assert(raw@ =~= field@.take(end as int));
    let decoded = match str_from_utf8(raw) {
        Some(s) => s,
        None => {
            let q = "?";
            proof { reveal_strlit("?"); }
            assert(q@ =~= seq!['?']);
            q
        },
    };
    assert(decoded@ == decode_or_question(raw@));
    strip_dot_slash_str(decoded)
}

/// Walks the members of an archive in order, the way the kernel's file
/// listing does.
pub struct TarFiles<'a> {
    pub tar: &'a [u8],
    pub offset: usize,
}

impl<'a> TarFiles<'a> {
    /// Starts at the first header.
    pub fn new(tar: &'a [u8]) -> (r: Self)
        ensures
            r.tar == tar,
            r.offset == 0,
    {
        TarFiles { tar, offset: 0 }
    }

    /// The next regular file, or `None` at the end of the archive.
    pub fn next(&mut self) -> (r: Option<File<'a>>)
        requires
            addressable(old(self).tar@),
            old(self).offset <= old(self).tar@.len() + 512 + 0x10_0000_0000,
            next_regular(old(self).tar@, old(self).offset as int) matches Some(h) ==> data_fits(old(self).tar@, h),
        ensures
            final(self).tar == old(self).tar,
            final(self).offset <= final(self).tar@.len() + 512 + 0x10_0000_0000,
            match next_regular(old(self).tar@, old(self).offset as int) {
                None => r is None && next_regular(final(self).tar@, final(self).offset as int) is None,
                Some(h) => {
                    &&& r matches Some(f)
                    &&& f.name@ == entry_name(old(self).tar@, h)
                    &&& f.data@ == old(self).tar@.subrange(h + 512, h + 512 + entry_size(old(self).tar@, h))
                    &&& final(self).offset == entry_next(old(self).tar@, h)
                },
            },
    {
        let tar = self.tar;
        loop
            invariant
                self.tar == tar,
                tar == old(self).tar,
                addressable(tar@),
                self.offset <= tar@.len() + 512 + 0x10_0000_0000,
                next_regular(tar@, self.offset as int) == next_regular(tar@, old(self).offset as int),
                next_regular(tar@, self.offset as int) matches Some(h) ==> data_fits(tar@, h),
            decreases remaining(tar@, self.offset as int),
        {
            let offset = self.offset;
            if tar.len() < BLOCK || offset > tar.len() - BLOCK {
                return None;
            }
            if tar[offset] == 0 {
                return None;
            }
            let size_field = &tar[offset + 124..offset + 136];
            proof {
                assert(size_field@ =~= tar@.subrange(offset + 124, offset + 136));
                lemma_octal_bound(size_field@);
            }
            let size = parse_octal(size_field);
            let data_start = offset + BLOCK;
            let next = data_start + (size + 511) / 512 * 512;
            let typeflag = tar[offset + 156];
            self.offset = next;
            if typeflag == 48 || typeflag == 0 {
                let name = header_name(tar, offset);
                let data = &tar[data_start..data_start + size];
                return Some(File { name, data });
            }
        }
    }
}

/// Header offset of the first regular file named `name` from `off` on.
pub open spec fn first_named(tar: Seq<u8>, off: int, name: Seq<char>) -> Option<int>
    decreases remaining(tar, off),
{
    if off < 0 || at_end(tar, off) {
        None
    } else if entry_regular(tar, off) && entry_name(tar, off) == name {
        Some(off)
    } else {
        first_named(tar, entry_next(tar, off), name)
    }
}

/// Looking for `name` from `off` on only reads member data that lies inside
/// the archive: every regular member up to the first one named `name` fits.
pub open spec fn find_fits(tar: Seq<u8>, off: int, name: Seq<char>) -> bool
    decreases remaining(tar, off),
{
    if off < 0 || at_end(tar, off) {
        true
    } else if entry_regular(tar, off) {
        data_fits(tar, off) && (entry_name(tar, off) == name || find_fits(tar, entry_next(tar, off), name))
    } else {
        find_fits(tar, entry_next(tar, off), name)
    }
}

/// The file `f` is the regular member whose header starts at `h`.
pub open spec fn is_member(tar: Seq<u8>, h: int, f: File) -> bool {
    &&& f.name@ == entry_name(tar, h)
    &&& f.data@ == tar.subrange(h + 512, h + 512 + entry_size(tar, h))
}

/// Skipping the members that are not regular files changes none of the
/// walks that start at `off`.
proof fn lemma_skip(tar: Seq<u8>, off: int, name: Seq<char>)
    requires
        off >= 0,
    ensures
        match next_regular(tar, off) {
            None => {
                &&& regular_headers(tar, off) == Seq::<int>::empty()
                &&& first_named(tar, off, name) is None
                &&& find_fits(tar, off, name)
                &&& all_fit(tar, off)
            },
            Some(h) => {
                &&& off <= h
                &&& h + 512 <= tar.len()
                &&& entry_regular(tar, h)
                &&& !at_end(tar, h)
                &&& regular_headers(tar, off) == regular_headers(tar, h)
                &&& first_named(tar, off, name) == first_named(tar, h, name)
                &&& find_fits(tar, off, name) == find_fits(tar, h, name)
                &&& all_fit(tar, off) ==> all_fit(tar, h)
            },
        },
    decreases remaining(tar, off),
{
    if at_end(tar, off) {
    } else if entry_regular(tar, off) {
    } else {
        lemma_skip(tar, entry_next(tar, off), name);
    }
}

/// Whether every regular member's data lies inside the archive (and the
/// archive is small enough that walking it cannot overflow an offset): the
/// condition under which listing the archive reads only inside it.
pub fn archive_fits(tar: &[u8]) -> (r: bool)
    ensures
        r == (addressable(tar@) && all_fit(tar@, 0)),
{
    if tar.len() as u128 + 0x40_0000_0000u128 > usize::MAX as u128 {
        return false;
    }
    let mut offset: usize = 0;
    loop
        invariant
            addressable(tar@),
            offset <= tar@.len() + 512 + 0x10_0000_0000,
            all_fit(tar@, offset as int) == all_fit(tar@, 0),
        decreases remaining(tar@, offset as int),
    {
        if tar.len() < BLOCK || offset > tar.len() - BLOCK {
            return true;
        }
        if tar[offset] == 0 {
            return true;
        }
        let size_field = &tar[offset + 124..offset + 136];
        proof {
            assert(size_field@ =~= tar@.subrange(offset + 124, offset + 136));
            lemma_octal_bound(size_field@);
        }
        let size = parse_octal(size_field);
        let data_start = offset + BLOCK;
        let typeflag = tar[offset + 156];
        if (typeflag == 48 || typeflag == 0) && size > tar.len() - data_start {
            return false;
        }
        offset = data_start + (size + 511) / 512 * 512;
    }
}

/// Each regular file from `off` on has a header block of its own inside
/// the archive, so there are at most as many as 512-byte blocks remain.
proof fn lemma_headers_count(tar: Seq<u8>, off: int)
    requires
        off >= 0,
    ensures
        regular_headers(tar, off).len() * 512 <= remaining(tar, off),
        off == 0 ==> regular_headers(tar, off).len() <= tar.len() / 512,
    decreases remaining(tar, off),
{
    if !at_end(tar, off) {
        let next = entry_next(tar, off);
        assert(next >= off + 512) by {
            assert((entry_size(tar, off) + 511) / 512 * 512 >= 0) by (nonlinear_arith);
        }
        lemma_headers_count(tar, next);
    }
    if off == 0 {
        let n = regular_headers(tar, off).len() as int;
        assert(n <= tar.len() / 512) by (nonlinear_arith)
            requires n * 512 <= tar.len(), n >= 0;
    }
}

/// All regular files of the archive, in archive order.
pub fn files<'a>(tar: &'a [u8]) -> (r: Vec<File<'a>>)
    requires
        addressable(tar@),
        all_fit(tar@, 0),
    ensures
        r@.len() == regular_headers(tar@, 0).len(),
        r@.len() <= tar@.len() / 512,
        forall|i: int| 0 <= i < r@.len() ==> is_member(tar@, regular_headers(tar@, 0)[i], #[trigger] r@[i]),
{
    proof { lemma_headers_count(tar@, 0); }
    let mut it = TarFiles::new(tar);
    let mut out: Vec<File<'a>> = Vec::new();
    let ghost all = regular_headers(tar@, 0);
    loop
        invariant
            it.tar == tar,
            addressable(tar@),
            it.offset <= tar@.len() + 512 + 0x10_0000_0000,
            all_fit(tar@, it.offset as int),
            all =~= regular_headers(tar@, 0),
            all.len() <= tar@.len() / 512,
            out@.len() <= all.len(),
            all.subrange(out@.len() as int, all.len() as int) == regular_headers(tar@, it.offset as int),
            forall|i: int| 0 <= i < out@.len() ==> is_member(tar@, all[i], #[trigger] out@[i]),
        decreases remaining(tar@, it.offset as int),
    {
        let ghost off = it.offset as int;
        proof { lemma_skip(tar@, off, seq![]); }
        match it.next() {
            None => {
                assert(regular_headers(tar@, off).len() == 0);
                assert(all.subrange(out@.len() as int, all.len() as int).len() == 0);
                return out;
            },
            Some(f) => {
                proof {
                    let h = next_regular(tar@, off)->0;
                    let rest = regular_headers(tar@, entry_next(tar@, h));
                    assert(regular_headers(tar@, h) == seq![h] + rest);
                    let k = out@.len() as int;
                    let sub = all.subrange(k, all.len() as int);
                    assert(sub == seq![h] + rest);
                    assert(sub.len() == 1 + rest.len());
                    assert(all[k] == sub[0]);
                    assert(all.subrange(k + 1, all.len() as int) =~= sub.drop_first());
                    assert(sub.drop_first() =~= rest);
                }
                out.push(f);
            },
        }
    }
}

/// The first regular file named `name`, reading no further than that file.
pub fn find<'a>(tar: &'a [u8], name: &str) -> (r: Option<File<'a>>)
    requires
        addressable(tar@),
        find_fits(tar@, 0, name@),
    ensures
        match first_named(tar@, 0, name@) {
            None => r is None,
            Some(h) => r matches Some(f) && is_member(tar@, h, f),
        },
{
    let mut it = TarFiles::new(tar);
    loop
        invariant
            it.tar == tar,
            addressable(tar@),
            it.offset <= tar@.len() + 512 + 0x10_0000_0000,
            find_fits(tar@, it.offset as int, name@),
            first_named(tar@, it.offset as int, name@) == first_named(tar@, 0, name@),
        decreases remaining(tar@, it.offset as int),
    {
        let ghost off = it.offset as int;
        proof { lemma_skip(tar@, off, name@); }
        match it.next() {
            None => {
                return None;
            },
            Some(f) => {
                if str_eq(f.name, name) {
                    return Some(f);
                }
            },
        }
    }
}

/// The archive the bootloader handed over, set once at boot.
pub struct Initrd<'a> {
    data: Option<&'a [u8]>,
}

impl<'a> Initrd<'a> {
    /// The archive that `get` hands out; `None` before `init`.
    pub closed spec fn view(&self) -> Option<Seq<u8>> {
        match self.data {
            Some(d) => Some(d@),
            None => None,
        }
    }

    /// No archive yet.
    pub fn new() -> (r: Self)
        ensures
            r@ is None,
    {
        Initrd { data: None }
    }

    /// Records the archive; only the first call has an effect.
    pub fn init(&mut self, data: &'a [u8])
        ensures
            old(self)@ is None ==> final(self)@ == Some(data@),
            old(self)@ is Some ==> final(self)@ == old(self)@,
    {
        if self.data.is_none() {
            self.data = Some(data);
        }
    }

    /// The archive, once recorded.
    pub fn get(&self) -> (r: Option<&'a [u8]>)
        ensures
            match r {
                Some(d) => self@ == Some(d@),
                None => self@ is None,
            },
    {
        self.data
    }
}

/// `find` agrees with `files`: it gives the first listed regular file with
/// the name, and nothing exactly when no listed file has the name.
pub proof fn law_find_is_first_listed(tar: Seq<u8>, off: int, name: Seq<char>)
    requires
        off >= 0,
    ensures
        match first_named(tar, off, name) {
            Some(h) => exists|i: int| #![trigger regular_headers(tar, off)[i]]
                0 <= i < regular_headers(tar, off).len()
                && regular_headers(tar, off)[i] == h
                && entry_name(tar, h) == name
                && forall|j: int| 0 <= j < i ==> entry_name(tar, #[trigger] regular_headers(tar, off)[j]) != name,
            None => forall|j: int| 0 <= j < regular_headers(tar, off).len() ==>
                entry_name(tar, #[trigger] regular_headers(tar, off)[j]) != name,
        },
    decreases remaining(tar, off),
{
    let hs = regular_headers(tar, off);
    if at_end(tar, off) {
    } else {
        let next = entry_next(tar, off);
        law_find_is_first_listed(tar, next, name);
        let rest = regular_headers(tar, next);
        if entry_regular(tar, off) {
            assert(hs == seq![off] + rest);
            if entry_name(tar, off) == name {
                assert(hs[0] == off);
            } else {
                match first_named(tar, next, name) {
                    Some(h) => {
                        let i = choose|i: int| #![trigger rest[i]]
                            0 <= i < rest.len() && rest[i] == h && entry_name(tar, h) == name
                            && forall|j: int| 0 <= j < i ==> entry_name(tar, #[trigger] rest[j]) != name;
                        assert(hs[i + 1] == h);
                        assert forall|j: int| 0 <= j < i + 1 implies entry_name(tar, #[trigger] hs[j]) != name by {
                            if j > 0 {
                                assert(hs[j] == rest[j - 1]);
                            }
                        }
                    },
                    None => {
                        assert forall|j: int| 0 <= j < hs.len() implies entry_name(tar, #[trigger] hs[j]) != name by {
                            if j > 0 {
                                assert(hs[j] == rest[j - 1]);
                            }
                        }
                    },
                }
            }
        }
    }
}

/// Twelve bytes of octal digits stay below 8^12.
proof fn lemma_octal_bound(f: Seq<u8>)
    requires
        f.len() == 12,
    ensures
        octal_value(f) < 0x10_0000_0000,
{
    lemma_octal_run(f);
    lemma_octal_below(f.take(octal_run(f) as int));
    lemma_pow8_monotone(octal_run(f), 12);
    assert(pow8(12) == 0x10_0000_0000) by {
        reveal_with_fuel(pow8, 13);
    }
}

proof fn lemma_pow8_monotone(i: nat, j: nat)
    requires
        i <= j,
    ensures
        pow8(i) <= pow8(j),
    decreases j - i,
{
    if i < j {
        lemma_pow8_monotone(i, (j - 1) as nat);
    }
}

proof fn lemma_octal_below(d: Seq<u8>)
    requires
        d.len() <= 12,
        forall|k: int| 0 <= k < d.len() ==> is_octal(#[trigger] d[k]),
    ensures
        octal_of(d) < pow8(d.len()),
    decreases d.len(),
{
    if d.len() > 0 {
        lemma_octal_below(d.drop_last());
        assert(is_octal(d[d.len() - 1]));
        assert(pow8(d.len()) == pow8((d.len() - 1) as nat) * 8);
        let a = octal_of(d.drop_last());
        let p = pow8((d.len() - 1) as nat);
        let x = (d.last() - 48) as nat;
        assert(a * 8 + x < p * 8) by (nonlinear_arith)
            requires a < p, x < 8;
    }
}

spec fn pow8(n: nat) -> nat
    decreases n,
{
    if n == 0 { 1 } else { pow8((n - 1) as nat) * 8 }
}

} // verus!
