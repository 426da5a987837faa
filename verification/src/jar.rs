//! What goes into the project jar.
//!
//! The library writes the manifest and decides which entries the jar
//! holds, in which order and with which contents; the application reads
//! the class files and dependency jars and writes the archive.
use vstd::prelude::*;
use crate::maven::ResolvedArtifact;
use crate::paths::{components, path_components, slash_path, strip_components};
use vstd::utf8::{decode_utf8, encode_utf8, valid_utf8};
use vstd::string::{StrSliceExecFns, StringSliceAdditionalSpecFns};
use crate::text::{
    lemma_decode_concat, lemma_encode_concat, lemma_split_prefix, lemma_views_extend, push_clone,
    utf8_text,
    concat, ends_with, ends_with_str, join, join_strs, push_str, replace_char, replace_char_str, split,
    split_str, starts_with, starts_with_str, to_upper, to_upper_str, views,
};

verus! {

// ---------------------------------------------------------------------------
// Paths inside jars
// ---------------------------------------------------------------------------

/// A path's components joined with `/`.
pub fn path_to_slash_string(path: &str) -> (r: String)
    ensures
        r@ == slash_path(path@),
{
    let c = path_components(path);
    join_strs(&c, "/")
}

/// The components of `path` after those of `base`, if `base`'s start it.
pub fn strip_prefix(path: &str, base: &str) -> (r: Option<Vec<String>>)
    ensures
        match strip_components(path@, base@) {
            Some(rest) => r matches Some(v) && views(v@) == rest,
            None => r is None,
        },
{
    let cp = path_components(path);
    let cb = path_components(base);
    if cb.len() > cp.len() {
        assert(views(cb@).len() > views(cp@).len());
        return None;
    }
    let mut i: usize = 0;
    while i < cb.len()
        invariant
            cb@.len() <= cp@.len(),
            views(cp@) == components(path@),
            views(cb@) == components(base@),
            i <= cb@.len(),
            forall|k: int| 0 <= k < i ==> cp@[k]@ == cb@[k]@,
        decreases cb.len() - i,
    {
        if !(cp[i] == cb[i]) {
            proof {
                assert(views(cp@)[i as int] == cp@[i as int]@);
                assert(views(cb@)[i as int] == cb@[i as int]@);
                assert(views(cp@).subrange(0, cb@.len() as int)[i as int] != views(cb@)[i as int]);
                assert(views(cp@).subrange(0, cb@.len() as int) != views(cb@));
            }
            return None;
        }
        i = i + 1;
    }
    assert forall|k: int| 0 <= k < cb@.len() implies views(cp@)[k] == views(cb@)[k] by {
        assert(views(cp@)[k] == cp@[k]@);
        assert(views(cb@)[k] == cb@[k]@);
    }
    assert(views(cp@).subrange(0, cb@.len() as int) =~= views(cb@));
    let mut rest: Vec<String> = Vec::new();
    let mut j: usize = cb.len();
    while j < cp.len()
        invariant
            cb@.len() <= j <= cp@.len(),
            views(rest@) == views(cp@).subrange(cb@.len() as int, j as int),
        decreases cp.len() - j,
    {
        push_clone(&mut rest, &cp[j]);
        proof {
            lemma_views_extend(cp@, cb@.len() as int, j as int);
        }
        j = j + 1;
    }
    Some(rest)
}

/// The name of a class or resource file in the jar: its path relative to
/// the classes directory, with `/` separators.
pub open spec fn spec_zip_name(root: Seq<char>, file: Seq<char>) -> Result<Seq<char>, Seq<char>> {
    match strip_components(file, root) {
        Some(rest) => Ok(join(rest, "/"@)),
        None => Err(
            "Failed to calculate jar entry name for `"@ + file + "` relative to `"@ + root
                + "`: prefix not found"@,
        ),
    }
}

/// The jar entry name of `file` under the classes directory `root`.
pub fn zip_name(root: &str, file: &str) -> (r: Result<String, String>)
    ensures
        match spec_zip_name(root@, file@) {
            Ok(n) => r matches Ok(s) && s@ == n,
            Err(m) => r matches Err(e) && e@ == m,
        },
{
    match strip_prefix(file, root) {
        Some(rest) => Ok(join_strs(&rest, "/")),
        None => {
            let mut m = concat("Failed to calculate jar entry name for `", file);
            push_str(&mut m, "` relative to `");
            push_str(&mut m, root);
            push_str(&mut m, "`: prefix not found");
            Err(m)
        },
    }
}

/// The components of a path's parent (`Path::parent`): all but the last,
/// when there is a last component that is not the root.
pub open spec fn parent_components(p: Seq<char>) -> Option<Seq<Seq<char>>> {
    let c = components(p);
    if c.len() == 0 || c.last() == "/"@ {
        None
    } else {
        Some(c.drop_last())
    }
}

/// How the manifest names a dependency jar: relative to the directory of
/// the project jar when it lies under it, else as it is.
pub open spec fn spec_manifest_relative_path(jar_path: Seq<char>, dependency: Seq<char>) -> Seq<char> {
    let base = match parent_components(jar_path) {
        Some(b) => b,
        None => seq!["."@],
    };
    let cd = components(dependency);
    if base.len() <= cd.len() && cd.subrange(0, base.len() as int) == base {
        join(cd.subrange(base.len() as int, cd.len() as int), "/"@)
    } else {
        join(cd, "/"@)
    }
}

/// How the manifest names a dependency jar.
pub fn manifest_relative_path(jar_path: &str, dependency_path: &str) -> (r: String)
    ensures
        r@ == spec_manifest_relative_path(jar_path@, dependency_path@),
{
    let cj = path_components(jar_path);
    let mut base: Vec<String> = Vec::new();
    if cj.len() == 0 || cj[cj.len() - 1] == "/".to_owned() {
        base.push(".".to_owned());
        assert(views(base@) =~= seq!["."@]);
    } else {
        let mut i: usize = 0;
        while i + 1 < cj.len()
            invariant
                0 < cj@.len(),
                i < cj@.len(),
                views(base@) == views(cj@).subrange(0, i as int),
            decreases cj.len() - i,
        {
            push_clone(&mut base, &cj[i]);
            proof {
                lemma_views_extend(cj@, 0, i as int);
            }
            i = i + 1;
        }
        assert(i == cj@.len() - 1);
        assert(views(cj@).drop_last() =~= views(cj@).subrange(0, i as int));
        assert(views(cj@).last() == cj@[i as int]@);
    }
    let cd = path_components(dependency_path);
    if base.len() <= cd.len() {
        let mut k: usize = 0;
        let mut same = true;
        while k < base.len()
            invariant
                base@.len() <= cd@.len(),
                k <= base@.len(),
                same == forall|m: int| 0 <= m < k ==> cd@[m]@ == base@[m]@,
            decreases base.len() - k,
        {
            if !(cd[k] == base[k]) {
                same = false;
            }
            k = k + 1;
        }
        if same {
            assert forall|k: int| 0 <= k < base@.len() implies views(cd@)[k] == views(base@)[k] by {
                assert(views(cd@)[k] == cd@[k]@);
                assert(views(base@)[k] == base@[k]@);
            }
            assert(views(cd@).subrange(0, base@.len() as int) =~= views(base@));
            let mut rest: Vec<String> = Vec::new();
            let mut j: usize = base.len();
            while j < cd.len()
                invariant
                    base@.len() <= j <= cd@.len(),
                    views(rest@) == views(cd@).subrange(base@.len() as int, j as int),
                decreases cd.len() - j,
            {
                push_clone(&mut rest, &cd[j]);
                proof {
                    lemma_views_extend(cd@, base@.len() as int, j as int);
                }
                j = j + 1;
            }
            return join_strs(&rest, "/");
        } else {
            proof {
                let m = choose|m: int| 0 <= m < base@.len() && !(cd@[m]@ == base@[m]@);
                assert(views(cd@)[m] == cd@[m]@);
                assert(views(base@)[m] == base@[m]@);
                assert(views(cd@).subrange(0, base@.len() as int)[m] != views(base@)[m]);
            }
        }
    }
    join_strs(&cd, "/")
}

// ---------------------------------------------------------------------------
// Entry rules
// ---------------------------------------------------------------------------

/// Entries of dependency jars that a fat jar leaves out: their manifests
/// and index, and signature files under `META-INF/`.
pub open spec fn spec_skip_dependency_entry(name: Seq<char>) -> bool {
    let upper = to_upper(name);
    ||| name == "META-INF/MANIFEST.MF"@
    ||| name == "META-INF/INDEX.LIST"@
    ||| starts_with(upper, "META-INF/"@) && (ends_with(upper, ".SF"@) || ends_with(upper, ".DSA"@)
        || ends_with(upper, ".RSA"@) || ends_with(upper, ".EC"@))
}

/// A service provider file: a file directly named under `META-INF/services/`.
pub open spec fn spec_is_service_file(name: Seq<char>) -> bool {
    starts_with(name, "META-INF/services/"@) && name.len() > "META-INF/services/"@.len()
}

/// The dependency entry is left out of a fat jar.
pub fn should_skip_dependency_entry(name: &str) -> (b: bool)
    ensures
        b == spec_skip_dependency_entry(name@),
{
    let n = name.to_owned();
    if n == "META-INF/MANIFEST.MF".to_owned() || n == "META-INF/INDEX.LIST".to_owned() {
        return true;
    }
    let upper = to_upper_str(name);
    let u = upper.as_str();
    starts_with_str(u, "META-INF/") && (ends_with_str(u, ".SF") || ends_with_str(u, ".DSA")
        || ends_with_str(u, ".RSA") || ends_with_str(u, ".EC"))
}

/// The entry is a service provider file.
pub fn is_service_file(name: &str) -> (b: bool)
    ensures
        b == spec_is_service_file(name@),
{
    let prefix = "META-INF/services/";
    starts_with_str(name, prefix) && name.unicode_len() > prefix.unicode_len()
}


// ---------------------------------------------------------------------------
// The manifest
// ---------------------------------------------------------------------------

/// Where the piece of a long line that starts at `offset` ends: 71 bytes
/// on, or the end of the line.
pub open spec fn piece_end(b: Seq<u8>, offset: int) -> int {
    if offset + 71 < b.len() {
        offset + 71
    } else {
        b.len() as int
    }
}

/// The continuation lines of a long line from byte `offset` on: each a
/// space, up to 71 bytes of the line, and a newline.
pub open spec fn continuation(b: Seq<u8>, offset: int) -> Seq<char>
    decreases b.len() - offset,
{
    if offset < 0 || offset >= b.len() {
        Seq::empty()
    } else {
        seq![' '] + decode_utf8(b.subrange(offset, piece_end(b, offset))) + seq!['\n']
            + continuation(b, piece_end(b, offset))
    }
}

/// Every piece from byte `offset` on is valid UTF-8.
pub open spec fn pieces_valid(b: Seq<u8>, offset: int) -> bool
    decreases b.len() - offset,
{
    if offset < 0 || offset >= b.len() {
        true
    } else {
        valid_utf8(b.subrange(offset, piece_end(b, offset))) && pieces_valid(b, piece_end(b, offset))
    }
}

/// The line can be cut into manifest lines: it fits in 72 bytes, or each
/// cut falls between characters.
pub open spec fn line_wrappable(line: Seq<char>) -> bool {
    let b = encode_utf8(line);
    b.len() <= 72 || (valid_utf8(b.subrange(0, 72)) && pieces_valid(b, 72))
}

/// A manifest line: a line of at most 72 bytes as it is, a longer one cut
/// into its first 72 bytes and continuation lines of a space and at most
/// 71 bytes; each line ends with a newline.
pub open spec fn wrapped(line: Seq<char>) -> Seq<char> {
    let b = encode_utf8(line);
    if b.len() <= 72 {
        line + seq!['\n']
    } else {
        decode_utf8(b.subrange(0, 72)) + seq!['\n'] + continuation(b, 72)
    }
}

/// The bytes `b[from..to]`.
pub fn byte_range(b: &[u8], from: usize, to: usize) -> (r: Vec<u8>)
    requires
        from <= to <= b@.len(),
    ensures
        r@ == b@.subrange(from as int, to as int),
{
    let mut r: Vec<u8> = Vec::new();
    let mut i: usize = from;
    while i < to
        invariant
            from <= i <= to <= b@.len(),
            r@ == b@.subrange(from as int, i as int),
        decreases to - i,
    {
        r.push(b[i]);
        i = i + 1;
    }
    r
}

/// The text of valid UTF-8 bytes.
fn decode(b: &[u8]) -> (s: String)
    requires
        valid_utf8(b@),
    ensures
        s@ == decode_utf8(b@),
{
    broadcast use vstd::utf8::encode_utf8_decode_utf8;

    match utf8_text(b) {
        Ok(s) => s,
        Err(_) => {
            assert(false);
            String::new()
        },
    }
}

/// Cuts a manifest line to the manifest's line length.
pub fn wrap_manifest_line(line: &str) -> (r: String)
    requires
        line_wrappable(line@),
    ensures
        r@ == wrapped(line@),
{
    let b = line.as_bytes();
    let n = b.len();
    assert(b@ == encode_utf8(line@));
    if n <= 72 {
        let mut r = line.to_owned();
        r.push('\n');
        return r;
    }
    let first = byte_range(b, 0, 72);
    let mut out = decode(first.as_slice());
    out.push('\n');
    let mut offset: usize = 72;
    while offset < n
        invariant
            b@ == encode_utf8(line@),
            n == b@.len(),
            72 <= offset <= n,
            pieces_valid(b@, offset as int),
            wrapped(line@) == out@ + continuation(b@, offset as int),
        decreases n - offset,
    {
        let end = if n - offset > 71 {
            offset + 71
        } else {
            n
        };
        assert(end == piece_end(b@, offset as int));
        let piece = byte_range(b, offset, end);
        let text = decode(piece.as_slice());
        let ghost before = out@;
        out.push(' ');
        push_str(&mut out, text.as_str());
        out.push('\n');
        assert(out@ =~= before + (seq![' '] + text@ + seq!['\n']));
        offset = end;
    }
    assert(continuation(b@, offset as int) == Seq::<char>::empty());
    assert(out@ =~= out@ + Seq::<char>::empty());
    out
}

/// Every cut of a line falls between characters.
pub fn is_line_wrappable(line: &str) -> (ok: bool)
    ensures
        ok == line_wrappable(line@),
{
    let b = line.as_bytes();
    let n = b.len();
    assert(b@ == encode_utf8(line@));
    if n <= 72 {
        return true;
    }
    let first = byte_range(b, 0, 72);
    if utf8_text(first.as_slice()).is_err() {
        return false;
    }
    let mut offset: usize = 72;
    while offset < n
        invariant
            b@ == encode_utf8(line@),
            n == b@.len(),
            72 <= offset <= n,
            pieces_valid(b@, 72) == pieces_valid(b@, offset as int),
        decreases n - offset,
    {
        let end = if n - offset > 71 {
            offset + 71
        } else {
            n
        };
        let piece = byte_range(b, offset, end);
        if utf8_text(piece.as_slice()).is_err() {
            return false;
        }
        offset = end;
    }
    true
}

/// The manifest line `name: value`.
pub open spec fn header(name: Seq<char>, value: Seq<char>) -> Seq<char> {
    name + ": "@ + value
}

/// `name: value`, cut to the manifest's line length.
pub fn manifest_line(name: &str, value: &str) -> (r: String)
    requires
        line_wrappable(header(name@, value@)),
    ensures
        r@ == wrapped(header(name@, value@)),
{
    let mut line = concat(name, ": ");
    push_str(&mut line, value);
    wrap_manifest_line(line.as_str())
}

/// Bytes below 128 are valid UTF-8.
pub proof fn lemma_ascii_bytes_valid(b: Seq<u8>)
    requires
        forall|i: int| 0 <= i < b.len() ==> b[i] < 128,
    ensures
        valid_utf8(b),
    decreases b.len(),
{
    if b.len() > 0 {
        let rest = b.subrange(1, b.len() as int);
        lemma_ascii_bytes_valid(rest);
        assert(vstd::utf8::pop_first_scalar(b) =~= rest);
    }
}

/// ASCII lines can always be cut.
pub proof fn lemma_ascii_wrappable(line: Seq<char>)
    requires
        vstd::utf8::is_ascii_chars(line),
    ensures
        line_wrappable(line),
{
    broadcast use vstd::utf8::is_ascii_chars_encode_utf8, vstd::utf8::is_ascii_chars_nat_bound;

    let b = encode_utf8(line);
    assert forall|i: int| 0 <= i < b.len() implies b[i] < 128 by {
        assert(line[i] as u8 == b[i]);
    }
    if b.len() > 72 {
        lemma_ascii_bytes_valid(b.subrange(0, 72));
        lemma_ascii_pieces(b, 72);
    }
}

proof fn lemma_ascii_pieces(b: Seq<u8>, offset: int)
    requires
        forall|i: int| 0 <= i < b.len() ==> b[i] < 128,
        offset >= 0,
    ensures
        pieces_valid(b, offset),
    decreases b.len() - offset,
{
    if offset < b.len() {
        lemma_ascii_bytes_valid(b.subrange(offset, piece_end(b, offset)));
        lemma_ascii_pieces(b, piece_end(b, offset));
    }
}

/// The continuation lines from byte `offset` on, without their newlines:
/// each a space and up to 71 bytes of the line.
pub open spec fn continuation_lines(b: Seq<u8>, offset: int) -> Seq<Seq<char>>
    decreases b.len() - offset,
{
    if offset < 0 || offset >= b.len() {
        Seq::empty()
    } else {
        seq![seq![' '] + decode_utf8(b.subrange(offset, piece_end(b, offset)))] + continuation_lines(
            b,
            piece_end(b, offset),
        )
    }
}

/// Continuation lines read back: each without its leading space, one
/// after the other.
pub open spec fn unfolded(lines: Seq<Seq<char>>) -> Seq<char>
    decreases lines.len(),
{
    if lines.len() == 0 {
        Seq::empty()
    } else {
        lines[0].drop_first() + unfolded(lines.drop_first())
    }
}

/// The bytes from `offset` on are valid UTF-8 when each piece is.
proof fn lemma_rest_valid(b: Seq<u8>, offset: int)
    requires
        0 <= offset <= b.len(),
        pieces_valid(b, offset),
    ensures
        valid_utf8(b.subrange(offset, b.len() as int)),
    decreases b.len() - offset,
{
    if offset == b.len() {
        assert(b.subrange(offset, b.len() as int) =~= Seq::<u8>::empty());
    } else {
        let end = piece_end(b, offset);
        lemma_rest_valid(b, end);
        lemma_decode_concat(b.subrange(offset, end), b.subrange(end, b.len() as int));
        assert(b.subrange(offset, end) + b.subrange(end, b.len() as int) =~= b.subrange(
            offset,
            b.len() as int,
        ));
    }
}

/// The continuation from `offset` on splits into its lines, each of at
/// most 72 bytes and starting with a space, which read back give the rest
/// of the line.
proof fn lemma_continuation_lines(b: Seq<u8>, offset: int)
    requires
        0 <= offset <= b.len(),
        pieces_valid(b, offset),
        !decode_utf8(b.subrange(offset, b.len() as int)).contains('\n'),
    ensures
        split(continuation(b, offset), '\n') == continuation_lines(b, offset).push(Seq::<char>::empty()),
        forall|i: int|
            0 <= i < continuation_lines(b, offset).len() ==> encode_utf8(
                #[trigger] continuation_lines(b, offset)[i],
            ).len() <= 72 && continuation_lines(b, offset)[i].len() >= 1
                && continuation_lines(b, offset)[i][0] == ' ',
        unfolded(continuation_lines(b, offset)) == decode_utf8(b.subrange(offset, b.len() as int)),
        continuation_lines(b, offset).len() == (b.len() - offset + 70) / 71,
    decreases b.len() - offset,
{
    broadcast use vstd::utf8::decode_utf8_encode_utf8;

    if offset == b.len() {
        assert(b.subrange(offset, b.len() as int) =~= Seq::<u8>::empty());
        assert(continuation_lines(b, offset).push(Seq::<char>::empty()) =~= seq![Seq::<char>::empty()]);
    } else {
        let end = piece_end(b, offset);
        let piece = b.subrange(offset, end);
        let rest = b.subrange(end, b.len() as int);
        lemma_rest_valid(b, end);
        lemma_decode_concat(piece, rest);
        assert(piece + rest =~= b.subrange(offset, b.len() as int));
        let p = decode_utf8(piece);
        let r = decode_utf8(rest);
        assert(!p.contains('\n')) by {
            if p.contains('\n') {
                let k = choose|k: int| 0 <= k < p.len() && p[k] == '\n';
                assert((p + r)[k] == '\n');
            }
        }
        assert(!r.contains('\n')) by {
            if r.contains('\n') {
                let k = choose|k: int| 0 <= k < r.len() && r[k] == '\n';
                assert((p + r)[p.len() + k] == '\n');
            }
        }
        lemma_continuation_lines(b, end);
        let t = seq![' '] + p;
        assert(!t.contains('\n')) by {
            if t.contains('\n') {
                let k = choose|k: int| 0 <= k < t.len() && t[k] == '\n';
                assert(p[k - 1] == '\n');
            }
        }
        let c = continuation(b, end);
        assert(continuation(b, offset) =~= t + seq!['\n'] + c);
        lemma_split_prefix(t, '\n', c);
        let rl = continuation_lines(b, end);
        assert(continuation_lines(b, offset) == seq![t] + rl);
        assert(seq![t] + rl.push(Seq::<char>::empty()) =~= (seq![t] + rl).push(Seq::<char>::empty()));
        lemma_encode_concat(seq![' '], p);
        assert(encode_utf8(seq![' ']).len() == 1) by {
            let sp = seq![' '];
            assert(sp.drop_first() =~= Seq::<char>::empty());
            assert(sp[0] == ' ');
            assert((' ' as u32) == 32);
            assert(vstd::utf8::encode_scalar(32).len() == 1);
            assert(encode_utf8(Seq::<char>::empty()).len() == 0);
            assert(encode_utf8(sp) == vstd::utf8::encode_scalar(sp[0] as u32) + encode_utf8(sp.drop_first()));
        }
        assert(encode_utf8(t).len() == 1 + (end - offset));
        assert forall|i: int| 0 <= i < continuation_lines(b, offset).len() implies encode_utf8(
            #[trigger] continuation_lines(b, offset)[i],
        ).len() <= 72 && continuation_lines(b, offset)[i].len() >= 1
            && continuation_lines(b, offset)[i][0] == ' ' by {
            if i > 0 {
                assert(continuation_lines(b, offset)[i] == rl[i - 1]);
            }
        }
        assert((seq![t] + rl).drop_first() =~= rl);
        assert(t.drop_first() =~= p);
    }
}

/// A manifest line without line breaks is written as lines of at most 72
/// bytes, each line after the first starting with a space; dropping those
/// spaces and the line breaks gives the line back. A line of more than 72
/// bytes takes one line of 72 bytes and one continuation line per 71 bytes
/// begun after them.
pub proof fn law_manifest_lines_fit(line: Seq<char>)
    requires
        line_wrappable(line),
        !line.contains('\n'),
    ensures
        ({
            let ls = split(wrapped(line), '\n');
            &&& ls.len() >= 2
            &&& ls.last() == Seq::<char>::empty()
            &&& forall|i: int| 0 <= i < ls.len() - 1 ==> encode_utf8(#[trigger] ls[i]).len() <= 72
            &&& forall|i: int|
                1 <= i < ls.len() - 1 ==> (#[trigger] ls[i]).len() >= 1 && ls[i][0] == ' '
            &&& ls[0] + unfolded(ls.subrange(1, ls.len() - 1)) == line
            &&& ls.len() - 1 == if encode_utf8(line).len() <= 72 {
                1
            } else {
                1 + (encode_utf8(line).len() - 72 + 70) / 71
            }
        }),
{
    broadcast use vstd::utf8::decode_utf8_encode_utf8, vstd::utf8::encode_utf8_decode_utf8;

    let b = encode_utf8(line);
    let ls = split(wrapped(line), '\n');
    if b.len() <= 72 {
        assert(line + seq!['\n'] + Seq::<char>::empty() =~= wrapped(line));
        lemma_split_prefix(line, '\n', Seq::<char>::empty());
        assert(ls =~= seq![line, Seq::<char>::empty()]);
        assert(ls.subrange(1, ls.len() - 1) =~= Seq::<Seq<char>>::empty());
        assert(line + Seq::<char>::empty() =~= line);
    } else {
        let head = b.subrange(0, 72);
        let tail = b.subrange(72, b.len() as int);
        lemma_rest_valid(b, 72);
        lemma_decode_concat(head, tail);
        assert(head + tail =~= b);
        let first = decode_utf8(head);
        let r = decode_utf8(tail);
        assert(first + r == line);
        assert(!first.contains('\n')) by {
            if first.contains('\n') {
                let k = choose|k: int| 0 <= k < first.len() && first[k] == '\n';
                assert((first + r)[k] == '\n');
            }
        }
        assert(!r.contains('\n')) by {
            if r.contains('\n') {
                let k = choose|k: int| 0 <= k < r.len() && r[k] == '\n';
                assert((first + r)[first.len() + k] == '\n');
            }
        }
        lemma_continuation_lines(b, 72);
        let c = continuation(b, 72);
        assert(wrapped(line) =~= first + seq!['\n'] + c);
        lemma_split_prefix(first, '\n', c);
        let cl = continuation_lines(b, 72);
        assert(ls =~= (seq![first] + cl).push(Seq::<char>::empty()));
        assert(encode_utf8(first) == head);
        assert forall|i: int| 0 <= i < ls.len() - 1 implies encode_utf8(#[trigger] ls[i]).len() <= 72 by {
            if i > 0 {
                assert(ls[i] == cl[i - 1]);
            }
        }
        assert forall|i: int| 1 <= i < ls.len() - 1 implies (#[trigger] ls[i]).len() >= 1 && ls[i][0]
            == ' ' by {
            assert(ls[i] == cl[i - 1]);
        }
        assert(ls.subrange(1, ls.len() - 1) =~= cl);
    }
}

/// The text of a jar manifest: its version, the main class, the class
/// path when there is one, and an empty line.
pub open spec fn spec_manifest(main_class: Seq<char>, class_path: Seq<Seq<char>>) -> Seq<char> {
    wrapped(header("Manifest-Version"@, "1.0"@)) + wrapped(header("Main-Class"@, main_class)) + (
    if class_path.len() > 0 {
        wrapped(header("Class-Path"@, join(class_path, " "@)))
    } else {
        Seq::empty()
    }) + seq!['\n']
}

/// The manifest's lines can be cut.
pub open spec fn manifest_wrappable(main_class: Seq<char>, class_path: Seq<Seq<char>>) -> bool {
    &&& line_wrappable(header("Main-Class"@, main_class))
    &&& class_path.len() > 0 ==> line_wrappable(header("Class-Path"@, join(class_path, " "@)))
}

/// The text of a jar manifest.
pub fn build_manifest(main_class: &str, class_path: &Vec<String>) -> (r: String)
    requires
        manifest_wrappable(main_class@, views(class_path@)),
    ensures
        r@ == spec_manifest(main_class@, views(class_path@)),
{
    proof {
        reveal_strlit("Manifest-Version");
        reveal_strlit(": ");
        reveal_strlit("1.0");
        lemma_ascii_wrappable(header("Manifest-Version"@, "1.0"@));
    }
    let mut manifest = manifest_line("Manifest-Version", "1.0");
    let main_line = manifest_line("Main-Class", main_class);
    push_str(&mut manifest, main_line.as_str());
    if class_path.len() > 0 {
        let joined = join_strs(class_path, " ");
        let cp_line = manifest_line("Class-Path", joined.as_str());
        push_str(&mut manifest, cp_line.as_str());
    }
    manifest.push('\n');
    assert(manifest@ =~= spec_manifest(main_class@, views(class_path@)));
    manifest
}


// ---------------------------------------------------------------------------
// Entries
// ---------------------------------------------------------------------------

/// The name of the manifest entry.
pub const MANIFEST_ENTRY: &'static str = "META-INF/MANIFEST.MF";

/// A file to write into the jar.
#[derive(Debug)]
pub struct JarEntry {
    pub name: String,
    pub contents: Vec<u8>,
}

/// An entry read from a dependency jar.
#[derive(Debug)]
pub struct DependencyEntry {
    pub name: String,
    pub is_dir: bool,
    pub contents: Vec<u8>,
}

/// An entry as its name and contents.
pub type EntryView = (Seq<char>, Seq<u8>);

pub open spec fn entry_views(v: Seq<JarEntry>) -> Seq<EntryView> {
    v.map_values(|e: JarEntry| (e.name@, e.contents@))
}

/// No two entries share a name.
pub open spec fn distinct_names(v: Seq<EntryView>) -> bool {
    forall|i: int, j: int| 0 <= i < j < v.len() ==> (#[trigger] v[i]).0 != (#[trigger] v[j]).0
}

/// Some entry of `v` is named `n`.
pub open spec fn has_name(v: Seq<EntryView>, n: Seq<char>) -> bool {
    exists|k: int| 0 <= k < v.len() && (#[trigger] v[k]).0 == n
}

/// `v` has an entry named `n` with the contents of the first entry of `c`
/// named `n`.
pub open spec fn has_first_of(v: Seq<EntryView>, c: Seq<EntryView>, n: Seq<char>) -> bool {
    exists|k: int, j: int|
        0 <= k < v.len() && 0 <= j < c.len() && (#[trigger] v[k]).0 == n && (#[trigger] c[j]).0
            == n && v[k].1 == c[j].1 && forall|m: int| 0 <= m < j ==> c[m].0 != n
}

/// Service file contents joined, each piece ending with a newline.
pub open spec fn merged(chunks: Seq<Seq<u8>>) -> Seq<u8>
    decreases chunks.len(),
{
    if chunks.len() == 0 {
        Seq::empty()
    } else {
        let c = chunks.last();
        merged(chunks.drop_last()) + c + if c.len() > 0 && c.last() == 10u8 {
            Seq::<u8>::empty()
        } else {
            seq![10u8]
        }
    }
}

/// The contents of the entries of `c` named `n`, in order.
pub open spec fn chunks_named(c: Seq<EntryView>, n: Seq<char>) -> Seq<Seq<u8>>
    decreases c.len(),
{
    if c.len() == 0 {
        Seq::empty()
    } else if c.last().0 == n {
        chunks_named(c.drop_last(), n).push(c.last().1)
    } else {
        chunks_named(c.drop_last(), n)
    }
}

fn clone_bytes(b: &Vec<u8>) -> (r: Vec<u8>)
    ensures
        r@ == b@,
{
    byte_range(b.as_slice(), 0, b.len())
}

fn clone_entry(e: &JarEntry) -> (r: JarEntry)
    ensures
        r.name@ == e.name@,
        r.contents@ == e.contents@,
{
    JarEntry { name: e.name.clone(), contents: clone_bytes(&e.contents) }
}

/// The entry of `out` named `name`, if any.
fn find_entry(out: &Vec<JarEntry>, name: &String) -> (r: Option<usize>)
    ensures
        match r {
            Some(k) => k < out@.len() && out@[k as int].name@ == name@,
            None => !has_name(entry_views(out@), name@),
        },
{
    let mut k: usize = 0;
    while k < out.len()
        invariant
            k <= out@.len(),
            forall|m: int| 0 <= m < k ==> out@[m].name@ != name@,
        decreases out.len() - k,
    {
        if out[k].name == *name {
            return Some(k);
        }
        k = k + 1;
    }
    proof {
        if has_name(entry_views(out@), name@) {
            let m = choose|m: int|
                0 <= m < entry_views(out@).len() && (#[trigger] entry_views(out@)[m]).0 == name@;
            assert(entry_views(out@)[m].0 == out@[m].name@);
        }
    }
    None
}

/// `bytes` with a newline added unless it ends with one.
fn append_chunk(into: &mut Vec<u8>, chunk: &Vec<u8>)
    ensures
        final(into)@ == old(into)@ + chunk@ + if chunk@.len() > 0 && chunk@.last() == 10u8 {
            Seq::<u8>::empty()
        } else {
            seq![10u8]
        },
{
    let mut i: usize = 0;
    while i < chunk.len()
        invariant
            i <= chunk@.len(),
            into@ == old(into)@ + chunk@.subrange(0, i as int),
        decreases chunk.len() - i,
    {
        into.push(chunk[i]);
        assert(into@ =~= old(into)@ + chunk@.subrange(0, i + 1));
        i = i + 1;
    }
    assert(chunk@.subrange(0, chunk@.len() as int) =~= chunk@);
    if !(chunk.len() > 0 && chunk[chunk.len() - 1] == 10u8) {
        into.push(10u8);
    }
}

/// The manifest entry's name is not a service file's.
pub proof fn lemma_manifest_not_service()
    ensures
        !spec_is_service_file(MANIFEST_ENTRY@),
{
    reveal_strlit("META-INF/MANIFEST.MF");
    reveal_strlit("META-INF/services/");
    assert(MANIFEST_ENTRY@.subrange(0, 18)[9] != "META-INF/services/"@[9]);
}

/// The candidates that are written as they are, in order: each name once
/// (its first candidate), leaving out the manifest's name and, with
/// `merge`, the service files.
pub open spec fn plain_entries(c: Seq<EntryView>, merge: bool) -> Seq<EntryView>
    decreases c.len(),
{
    if c.len() == 0 {
        Seq::empty()
    } else {
        let prev = plain_entries(c.drop_last(), merge);
        let e = c.last();
        if (merge && spec_is_service_file(e.0)) || e.0 == MANIFEST_ENTRY@ || has_name(prev, e.0) {
            prev
        } else {
            prev.push(e)
        }
    }
}

/// With `merge`, the names of the service files among the candidates, in
/// the order they first appear.
pub open spec fn service_names(c: Seq<EntryView>, merge: bool) -> Seq<Seq<char>>
    decreases c.len(),
{
    if c.len() == 0 {
        Seq::empty()
    } else {
        let prev = service_names(c.drop_last(), merge);
        let n = c.last().0;
        if merge && spec_is_service_file(n) && !prev.contains(n) {
            prev.push(n)
        } else {
            prev
        }
    }
}

/// The merged service files: each name with the contents of all its
/// candidates joined.
pub open spec fn service_entries(c: Seq<EntryView>, merge: bool) -> Seq<EntryView> {
    service_names(c, merge).map_values(|n: Seq<char>| (n, merged(chunks_named(c, n))))
}

/// The entries of a jar in order: the manifest, the plain entries, then
/// the merged service files.
pub open spec fn jar_entries(manifest: Seq<u8>, c: Seq<EntryView>, merge: bool) -> Seq<EntryView> {
    seq![(MANIFEST_ENTRY@, manifest)] + plain_entries(c, merge) + service_entries(c, merge)
}

/// `out` holds the jar's entries as planned from `candidates`: the
/// manifest first, each name once, each name of a candidate that is not a
/// merged service file with the contents of its first candidate, and with
/// `merge`, each service file with the merged contents of all candidates of
/// its name. Every entry after the manifest is named after a candidate.
pub open spec fn planned(out: Seq<EntryView>, manifest: Seq<u8>, c: Seq<EntryView>, merge: bool) -> bool {
    &&& out.len() >= 1
    &&& out[0] == (MANIFEST_ENTRY@, manifest)
    &&& distinct_names(out)
    &&& forall|j: int|
        0 <= j < c.len() && (!merge || !spec_is_service_file(#[trigger] c[j].0)) && c[j].0 != MANIFEST_ENTRY@
            ==> has_first_of(out, c, c[j].0)
    &&& merge ==> forall|j: int|
        0 <= j < c.len() && spec_is_service_file(#[trigger] c[j].0) ==> exists|k: int|
            0 <= k < out.len() && out[k] == (c[j].0, merged(chunks_named(c, c[j].0)))
    &&& forall|k: int| 1 <= k < out.len() ==> has_name(c, (#[trigger] out[k]).0)
}

/// The entries of a jar after its manifest, built from `candidates` in
/// order: each name once, with the contents of the first candidate of that
/// name. With `merge_services`, the service files (`META-INF/services/...`)
/// of all candidates are instead merged into one entry each, placed after
/// the others.
pub fn plan_entries(manifest: &String, candidates: &Vec<JarEntry>, merge_services: bool) -> (out: Vec<JarEntry>)
    ensures
        entry_views(out@) == jar_entries(encode_utf8(manifest@), entry_views(candidates@), merge_services),
        planned(entry_views(out@), encode_utf8(manifest@), entry_views(candidates@), merge_services),
{
    let ghost cv = entry_views(candidates@);
    proof {
        lemma_manifest_not_service();
    }
    let mut out: Vec<JarEntry> = Vec::new();
    out.push(JarEntry { name: MANIFEST_ENTRY.to_owned(), contents: manifest.as_str().as_bytes_vec() });
    let mut svc_names: Vec<String> = Vec::new();
    let mut svc_contents: Vec<Vec<u8>> = Vec::new();
    let mut i: usize = 0;
    while i < candidates.len()
        invariant
            cv == entry_views(candidates@),
            i <= candidates@.len(),
            out@.len() >= 1,
            out@[0].name@ == MANIFEST_ENTRY@,
            out@[0].contents@ == encode_utf8(manifest@),
            !spec_is_service_file(MANIFEST_ENTRY@),
            distinct_names(entry_views(out@)),
            forall|k: int|
                1 <= k < out@.len() ==> has_name(cv.subrange(0, i as int), #[trigger] out@[k].name@)
                    && (merge_services ==> !spec_is_service_file(out@[k].name@)),
            forall|j: int|
                0 <= j < i && (!merge_services || !spec_is_service_file(#[trigger] cv[j].0)) && cv[j].0
                    != MANIFEST_ENTRY@ ==> has_first_of(entry_views(out@), cv, cv[j].0),
            svc_names@.len() == svc_contents@.len(),
            !merge_services ==> svc_names@.len() == 0,
            forall|a: int, b: int|
                0 <= a < b < svc_names@.len() ==> (#[trigger] svc_names@[a])@ != (#[trigger] svc_names@[b])@,
            forall|a: int|
                0 <= a < svc_names@.len() ==> spec_is_service_file((#[trigger] svc_names@[a])@)
                    && has_name(cv.subrange(0, i as int), svc_names@[a]@)
                    && svc_contents@[a]@ == merged(chunks_named(cv.subrange(0, i as int), svc_names@[a]@)),
            merge_services ==> forall|j: int|
                0 <= j < i && spec_is_service_file(#[trigger] cv[j].0) ==> exists|a: int|
                    0 <= a < svc_names@.len() && (#[trigger] svc_names@[a])@ == cv[j].0,
            entry_views(out@) == seq![(MANIFEST_ENTRY@, encode_utf8(manifest@))] + plain_entries(
                cv.subrange(0, i as int),
                merge_services,
            ),
            views(svc_names@) == service_names(cv.subrange(0, i as int), merge_services),
        decreases candidates.len() - i,
    {
        let ghost pre = cv.subrange(0, i as int);
        let ghost plain_pre = plain_entries(pre, merge_services);
        let ghost names_pre = service_names(pre, merge_services);
        let ghost post = cv.subrange(0, i + 1);
        assert(post.drop_last() =~= pre);
        assert(post.last() == cv[i as int]);
        assert(cv[i as int] == (candidates@[i as int].name@, candidates@[i as int].contents@));
        let name = &candidates[i].name;
        let ghost n = name@;
        proof {
            assert forall|x: Seq<char>| #[trigger] has_name(pre, x) implies has_name(post, x) by {
                let k = choose|k: int| 0 <= k < pre.len() && (#[trigger] pre[k]).0 == x;
                assert(post[k] == pre[k]);
            }
            assert(post[i as int].0 == n);
            assert(has_name(post, n));
            assert forall|m: Seq<char>| m != n implies #[trigger] chunks_named(post, m) == chunks_named(pre, m) by {}
        }
        if merge_services && is_service_file(name.as_str()) {
            assert(plain_entries(post, merge_services) == plain_pre);
            match find_name(&svc_names, name) {
                Some(a) => {
                    assert(views(svc_names@)[a as int] == n);
                    assert(names_pre.contains(n));
                    assert(service_names(post, merge_services) == names_pre);
                    let mut c = clone_bytes(&svc_contents[a]);
                    append_chunk(&mut c, &candidates[i].contents);
                    assert(chunks_named(post, n) == chunks_named(pre, n).push(cv[i as int].1));
                    assert(chunks_named(post, n).drop_last() =~= chunks_named(pre, n));
                    svc_contents.set(a, c);
                    assert forall|b: int| 0 <= b < svc_names@.len() implies spec_is_service_file(
                        (#[trigger] svc_names@[b])@,
                    ) && has_name(post, svc_names@[b]@) && svc_contents@[b]@ == merged(
                        chunks_named(post, svc_names@[b]@),
                    ) by {
                        assert(has_name(pre, svc_names@[b]@));
                        if b != a {
                            assert(svc_names@[b]@ != n);
                        }
                    }
                },
                None => {
                    proof {
                        if names_pre.contains(n) {
                            let b = choose|b: int| 0 <= b < names_pre.len() && names_pre[b] == n;
                            assert(views(svc_names@)[b] == svc_names@[b]@);
                        }
                        assert(service_names(post, merge_services) == names_pre.push(n));
                        if has_name(pre, n) {
                            let k = choose|k: int| 0 <= k < pre.len() && (#[trigger] pre[k]).0 == n;
                            assert(cv[k].0 == n);
                            assert(spec_is_service_file(cv[k].0));
                        }
                        lemma_chunks_absent(pre, n);
                        assert(chunks_named(post, n) =~= seq![cv[i as int].1]);
                        assert(seq![cv[i as int].1].drop_last() =~= Seq::<Seq<u8>>::empty());
                    }
                    let mut c: Vec<u8> = Vec::new();
                    append_chunk(&mut c, &candidates[i].contents);
                    assert(merged(Seq::<Seq<u8>>::empty()) =~= Seq::<u8>::empty());
                    assert(c@ =~= merged(chunks_named(post, n)));
                    let ghost old_names = svc_names@;
                    push_clone(&mut svc_names, name);
                    proof {
                        assert(views(svc_names@) == views(old_names).push(n));
                        assert(svc_names@.len() == old_names.len() + 1);
                        assert forall|b: int| 0 <= b < old_names.len() implies svc_names@[b]@
                            == old_names[b]@ by {
                            assert(views(svc_names@)[b] == views(old_names)[b]);
                        }
                        assert(views(svc_names@)[old_names.len() as int] == n);
                    }
                    svc_contents.push(c);
                    assert forall|x: int, y: int|
                        0 <= x < y < svc_names@.len() implies (#[trigger] svc_names@[x])@ != (#[trigger] svc_names@[y])@ by {
                        assert(svc_names@[x]@ == views(svc_names@)[x]);
                        assert(svc_names@[y]@ == views(svc_names@)[y]);
                        if y == old_names.len() {
                            assert(old_names[x]@ != n);
                        } else {
                            assert(old_names[x]@ != old_names[y]@);
                        }
                    }
                    assert forall|b: int| 0 <= b < svc_names@.len() implies spec_is_service_file(
                        (#[trigger] svc_names@[b])@,
                    ) && has_name(post, svc_names@[b]@) && svc_contents@[b]@ == merged(
                        chunks_named(post, svc_names@[b]@),
                    ) by {
                        assert(svc_names@[b]@ == views(svc_names@)[b]);
                        if b < old_names.len() {
                            assert(has_name(pre, svc_names@[b]@));
                        }
                    }
                },
            }
            assert forall|j: int|
                0 <= j < i + 1 && spec_is_service_file(#[trigger] cv[j].0) implies exists|a: int|
                0 <= a < svc_names@.len() && (#[trigger] svc_names@[a])@ == cv[j].0 by {
                if j < i {
                    let a = choose|a: int| 0 <= a < svc_names@.len() && (#[trigger] svc_names@[a])@ == cv[j].0 || false;
                }
            }
            assert forall|j: int|
                0 <= j < i + 1 && (!merge_services || !spec_is_service_file(#[trigger] cv[j].0))
                    && cv[j].0 != MANIFEST_ENTRY@ implies has_first_of(entry_views(out@), cv, cv[j].0) by {
                if j == i {
                    assert(cv[j].0 == n);
                }
            }
        } else if *name == MANIFEST_ENTRY.to_owned() {
            assert(plain_entries(post, merge_services) == plain_pre);
            assert(service_names(post, merge_services) == names_pre);
            assert forall|j: int|
                0 <= j < i + 1 && (!merge_services || !spec_is_service_file(#[trigger] cv[j].0))
                    && cv[j].0 != MANIFEST_ENTRY@ implies has_first_of(entry_views(out@), cv, cv[j].0) by {
                if j == i {
                    assert(cv[j].0 == n);
                }
            }
        } else {
            assert(service_names(post, merge_services) == names_pre);
            match find_entry(&out, name) {
                Some(k) => {
                    proof {
                        assert(k != 0);
                        assert(entry_views(out@)[k as int] == plain_pre[k - 1]);
                        assert(has_name(plain_pre, n));
                        assert(plain_entries(post, merge_services) == plain_pre);
                        assert(has_name(pre, n));
                        let j0 = choose|j: int| 0 <= j < pre.len() && (#[trigger] pre[j]).0 == n;
                        assert(cv[j0].0 == n);
                        assert(pre[j0] == cv[j0]);
                        assert forall|j: int|
                            0 <= j < i + 1 && (!merge_services || !spec_is_service_file(#[trigger] cv[j].0))
                                && cv[j].0 != MANIFEST_ENTRY@ implies has_first_of(entry_views(out@), cv, cv[j].0) by {
                            if j == i {
                                assert(cv[j].0 == n);
                                assert(has_first_of(entry_views(out@), cv, cv[j0].0));
                            }
                        }
                    }
                },
                None => {
                    let ghost old_out = out@;
                    proof {
                        if has_name(plain_pre, n) {
                            let k = choose|k: int| 0 <= k < plain_pre.len() && (#[trigger] plain_pre[k]).0 == n;
                            assert(entry_views(old_out)[k + 1] == plain_pre[k]);
                        }
                        assert(plain_entries(post, merge_services) == plain_pre.push(cv[i as int]));
                    }
                    out.push(clone_entry(&candidates[i]));
                    proof {
                        assert(entry_views(out@) =~= entry_views(old_out).push(cv[i as int]));
                        assert forall|m: int| 0 <= m < i implies cv[m].0 != n by {
                            if cv[m].0 == n {
                                assert(has_first_of(entry_views(old_out), cv, n));
                            }
                        }
                        assert(has_first_of(entry_views(out@), cv, n)) by {
                            let k = out@.len() - 1;
                            assert(entry_views(out@)[k].0 == n);
                        }
                        assert forall|j: int|
                            0 <= j < i + 1 && (!merge_services || !spec_is_service_file(#[trigger] cv[j].0))
                                && cv[j].0 != MANIFEST_ENTRY@ implies has_first_of(entry_views(out@), cv, cv[j].0) by {
                            if j < i {
                                lemma_first_of_push(entry_views(old_out), cv[i as int], cv, cv[j].0);
                            }
                        }
                    }
                },
            }
        }
        i = i + 1;
    }
    assert(cv.subrange(0, candidates@.len() as int) =~= cv);
    assert(service_entries(cv, merge_services).subrange(0, 0) =~= Seq::<EntryView>::empty());
    assert(entry_views(out@) =~= seq![(MANIFEST_ENTRY@, encode_utf8(manifest@))] + plain_entries(
        cv,
        merge_services,
    ) + service_entries(cv, merge_services).subrange(0, 0));
    let out_base = out.len();
    let mut a: usize = 0;
    while a < svc_names.len()
        invariant
            cv == entry_views(candidates@),
            out@.len() >= 1,
            out@[0].name@ == MANIFEST_ENTRY@,
            out@[0].contents@ == encode_utf8(manifest@),
            !spec_is_service_file(MANIFEST_ENTRY@),
            distinct_names(entry_views(out@)),
            a <= svc_names@.len(),
            out_base <= out@.len(),
            out@.len() == out_base + a,
            svc_names@.len() == svc_contents@.len(),
            !merge_services ==> svc_names@.len() == 0,
            forall|k: int|
                1 <= k < out_base ==> merge_services ==> !spec_is_service_file(
                    (#[trigger] out@[k]).name@,
                ),
            forall|k: int| 1 <= k < out@.len() ==> has_name(cv, #[trigger] out@[k].name@),
            forall|b: int|
                0 <= b < a ==> out@[out_base + b].name@ == (#[trigger] svc_names@[b])@
                    && out@[out_base + b].contents@ == svc_contents@[b]@,
            forall|x: int, y: int|
                0 <= x < y < svc_names@.len() ==> (#[trigger] svc_names@[x])@ != (#[trigger] svc_names@[y])@,
            forall|b: int|
                0 <= b < svc_names@.len() ==> spec_is_service_file((#[trigger] svc_names@[b])@)
                    && has_name(cv, svc_names@[b]@)
                    && svc_contents@[b]@ == merged(chunks_named(cv, svc_names@[b]@)),
            forall|j: int|
                0 <= j < candidates@.len() && (!merge_services || !spec_is_service_file(
                    #[trigger] cv[j].0,
                )) && cv[j].0 != MANIFEST_ENTRY@ ==> has_first_of(entry_views(out@), cv, cv[j].0),
            merge_services ==> forall|j: int|
                0 <= j < candidates@.len() && spec_is_service_file(#[trigger] cv[j].0) ==> exists|
                    b: int,
                | 0 <= b < svc_names@.len() && (#[trigger] svc_names@[b])@ == cv[j].0,
            views(svc_names@) == service_names(cv, merge_services),
            entry_views(out@) == seq![(MANIFEST_ENTRY@, encode_utf8(manifest@))] + plain_entries(
                cv,
                merge_services,
            ) + service_entries(cv, merge_services).subrange(0, a as int),
        decreases svc_names.len() - a,
    {
        let ghost old_out = out@;
        let e = JarEntry { name: svc_names[a].clone(), contents: clone_bytes(&svc_contents[a]) };
        out.push(e);
        proof {
            let n = svc_names@[a as int]@;
            assert(views(svc_names@)[a as int] == n);
            assert(service_entries(cv, merge_services)[a as int] == (n, merged(chunks_named(cv, n))));
            assert(service_entries(cv, merge_services).subrange(0, a + 1) =~= service_entries(
                cv,
                merge_services,
            ).subrange(0, a as int).push((n, merged(chunks_named(cv, n)))));
            assert(entry_views(out@) =~= entry_views(old_out).push((n, svc_contents@[a as int]@)));
            assert forall|k: int| 0 <= k < old_out.len() implies (#[trigger] old_out[k]).name@ != n by {
                if k == 0 {
                } else if k < out_base {
                } else {
                    assert(old_out[k].name@ == svc_names@[k - out_base]@);
                }
            }
            assert forall|x: int, y: int| 0 <= x < y < entry_views(out@).len() implies (
            #[trigger] entry_views(out@)[x]).0 != (#[trigger] entry_views(out@)[y]).0 by {
                if y == old_out.len() {
                    assert(entry_views(out@)[x].0 == old_out[x].name@);
                } else {
                    assert(entry_views(out@)[x] == entry_views(old_out)[x]);
                    assert(entry_views(out@)[y] == entry_views(old_out)[y]);
                }
            }
            assert forall|j: int|
                0 <= j < candidates@.len() && (!merge_services || !spec_is_service_file(
                    #[trigger] cv[j].0,
                )) && cv[j].0 != MANIFEST_ENTRY@ implies has_first_of(entry_views(out@), cv, cv[j].0) by {
                assert(has_first_of(entry_views(old_out), cv, cv[j].0));
                let (k, jj) = choose|k: int, jj: int|
                    0 <= k < entry_views(old_out).len() && 0 <= jj < cv.len() && (#[trigger] entry_views(
                        old_out,
                    )[k]).0 == cv[j].0 && (#[trigger] cv[jj]).0 == cv[j].0 && entry_views(old_out)[k].1
                        == cv[jj].1 && forall|m: int| 0 <= m < jj ==> cv[m].0 != cv[j].0;
                assert(entry_views(out@)[k] == entry_views(old_out)[k]);
            }
        }
        a = a + 1;
    }
    proof {
        let ov = entry_views(out@);
        assert(service_entries(cv, merge_services).subrange(0, svc_names@.len() as int) =~= service_entries(
            cv,
            merge_services,
        ));
        assert(ov[0] == (out@[0].name@, out@[0].contents@));
        assert forall|j: int|
            merge_services && 0 <= j < cv.len() && spec_is_service_file(#[trigger] cv[j].0) implies exists|k: int|
            0 <= k < ov.len() && ov[k] == (cv[j].0, merged(chunks_named(cv, cv[j].0))) by {
            let b = choose|b: int| 0 <= b < svc_names@.len() && (#[trigger] svc_names@[b])@ == cv[j].0;
            let k = out_base + b;
            assert(ov[k] == (out@[k].name@, out@[k].contents@));
        }
        assert forall|k: int| 1 <= k < ov.len() implies has_name(cv, (#[trigger] ov[k]).0) by {
            assert(ov[k].0 == out@[k].name@);
        }
    }
    out
}

/// Adding an entry keeps what `has_first_of` finds.
proof fn lemma_first_of_push(v: Seq<EntryView>, e: EntryView, c: Seq<EntryView>, n: Seq<char>)
    requires
        has_first_of(v, c, n),
    ensures
        has_first_of(v.push(e), c, n),
{
    let (k, j) = choose|k: int, j: int|
        0 <= k < v.len() && 0 <= j < c.len() && (#[trigger] v[k]).0 == n && (#[trigger] c[j]).0 == n
            && v[k].1 == c[j].1 && forall|m: int| 0 <= m < j ==> c[m].0 != n;
    assert(v.push(e)[k] == v[k]);
}

/// The index of `name` among `names`.
fn find_name(names: &Vec<String>, name: &String) -> (r: Option<usize>)
    ensures
        match r {
            Some(a) => a < names@.len() && names@[a as int]@ == name@,
            None => forall|a: int| 0 <= a < names@.len() ==> names@[a]@ != name@,
        },
{
    let mut a: usize = 0;
    while a < names.len()
        invariant
            a <= names@.len(),
            forall|m: int| 0 <= m < a ==> names@[m]@ != name@,
        decreases names.len() - a,
    {
        if names[a] == *name {
            return Some(a);
        }
        a = a + 1;
    }
    None
}

/// Without an entry named `n` there are no chunks named `n`.
proof fn lemma_chunks_absent(c: Seq<EntryView>, n: Seq<char>)
    requires
        !has_name(c, n),
    ensures
        chunks_named(c, n) == Seq::<Seq<u8>>::empty(),
    decreases c.len(),
{
    if c.len() > 0 {
        assert(c.last().0 != n) by {
            if c.last().0 == n {
                assert(c[c.len() - 1].0 == n);
            }
        }
        assert forall|k: int| 0 <= k < c.drop_last().len() implies (#[trigger] c.drop_last()[k]).0 != n by {
            assert(c.drop_last()[k] == c[k]);
        }
        lemma_chunks_absent(c.drop_last(), n);
    }
}


// ---------------------------------------------------------------------------
// The two kinds of jar
// ---------------------------------------------------------------------------

/// The class path that a thin jar's manifest names: each artifact's jar
/// relative to the directory of the project jar.
pub open spec fn spec_class_path(jar_path: Seq<char>, artifacts: Seq<ResolvedArtifact>) -> Seq<Seq<char>> {
    artifacts.map_values(|a: ResolvedArtifact| spec_manifest_relative_path(jar_path, a.jar_path@))
}

/// The entries of a thin jar at `jar_path`: its manifest, naming
/// `main_class` and the artifacts' jars as class path, and the project's
/// class files (names relative to the classes directory, with `/`).
pub fn create_classpath_jar(
    jar_path: &str,
    main_class: &str,
    artifacts: &[ResolvedArtifact],
    class_files: &Vec<JarEntry>,
) -> (out: Vec<JarEntry>)
    requires
        manifest_wrappable(main_class@, spec_class_path(jar_path@, artifacts@)),
    ensures
        entry_views(out@) == jar_entries(
            encode_utf8(spec_manifest(main_class@, spec_class_path(jar_path@, artifacts@))),
            entry_views(class_files@),
            false,
        ),
        planned(
            entry_views(out@),
            encode_utf8(spec_manifest(main_class@, spec_class_path(jar_path@, artifacts@))),
            entry_views(class_files@),
            false,
        ),
{
    let class_path = class_path_entries(jar_path, artifacts);
    let manifest = build_manifest(main_class, &class_path);
    plan_entries(&manifest, class_files, false)
}

/// The class path that a thin jar at `jar_path` names in its manifest.
pub fn class_path_entries(jar_path: &str, artifacts: &[ResolvedArtifact]) -> (class_path: Vec<String>)
    ensures
        views(class_path@) == spec_class_path(jar_path@, artifacts@),
{
    let mut class_path: Vec<String> = Vec::new();
    let mut i: usize = 0;
    while i < artifacts.len()
        invariant
            i <= artifacts@.len(),
            views(class_path@) == spec_class_path(jar_path@, artifacts@).subrange(0, i as int),
        decreases artifacts.len() - i,
    {
        let p = manifest_relative_path(jar_path, artifacts[i].jar_path.as_str());
        let ghost before = class_path@;
        class_path.push(p);
        assert(views(class_path@) =~= views(before).push(p@));
        assert(spec_class_path(jar_path@, artifacts@).subrange(0, i + 1) =~= spec_class_path(
            jar_path@,
            artifacts@,
        ).subrange(0, i as int).push(p@));
        i = i + 1;
    }
    assert(spec_class_path(jar_path@, artifacts@).subrange(0, artifacts@.len() as int)
        =~= spec_class_path(jar_path@, artifacts@));
    class_path
}

/// The lines of a manifest naming `main_class` and `class_path` can be cut
/// to the manifest's line length between characters.
pub fn manifest_fits(main_class: &str, class_path: &Vec<String>) -> (ok: bool)
    ensures
        ok == manifest_wrappable(main_class@, views(class_path@)),
{
    proof {
        reveal_strlit("Main-Class");
        reveal_strlit("Class-Path");
        reveal_strlit(": ");
    }
    let mut main_line = concat("Main-Class", ": ");
    push_str(&mut main_line, main_class);
    if !is_line_wrappable(main_line.as_str()) {
        return false;
    }
    if class_path.len() > 0 {
        let mut cp_line = concat("Class-Path", ": ");
        let joined = join_strs(class_path, " ");
        push_str(&mut cp_line, joined.as_str());
        is_line_wrappable(cp_line.as_str())
    } else {
        true
    }
}

/// The name of a dependency jar's entry in a fat jar: its name with `\`
/// turned into `/`, unless it is a directory or left out.
pub open spec fn dependency_candidate(e: DependencyEntry) -> Option<EntryView> {
    let n = replace_char(e.name@, '\\', "/"@);
    if !e.is_dir && !spec_skip_dependency_entry(n) {
        Some((n, e.contents@))
    } else {
        None
    }
}

/// What the entries of one dependency jar offer to a fat jar, in order.
pub open spec fn jar_candidates(es: Seq<DependencyEntry>) -> Seq<EntryView>
    decreases es.len(),
{
    if es.len() == 0 {
        Seq::empty()
    } else {
        match dependency_candidate(es.last()) {
            Some(c) => jar_candidates(es.drop_last()).push(c),
            None => jar_candidates(es.drop_last()),
        }
    }
}

/// What all dependency jars offer to a fat jar, jar after jar.
pub open spec fn dependency_candidates(jars: Seq<Vec<DependencyEntry>>) -> Seq<EntryView>
    decreases jars.len(),
{
    if jars.len() == 0 {
        Seq::empty()
    } else {
        dependency_candidates(jars.drop_last()) + jar_candidates(jars.last()@)
    }
}

/// The manifest of a fat jar: the main class and no class path.
pub open spec fn fat_manifest(main_class: Seq<char>) -> Seq<char> {
    spec_manifest(main_class, Seq::empty())
}

/// The entries of a fat jar: its manifest naming `main_class`, the
/// project's class files, then the entries of each dependency jar in turn,
/// the first of each name winning, with service files merged.
pub fn create_fat_jar(
    main_class: &str,
    class_files: &Vec<JarEntry>,
    dependency_jars: &Vec<Vec<DependencyEntry>>,
) -> (out: Vec<JarEntry>)
    requires
        manifest_wrappable(main_class@, Seq::empty()),
    ensures
        entry_views(out@) == jar_entries(
            encode_utf8(fat_manifest(main_class@)),
            entry_views(class_files@) + dependency_candidates(dependency_jars@),
            true,
        ),
        planned(
            entry_views(out@),
            encode_utf8(fat_manifest(main_class@)),
            entry_views(class_files@) + dependency_candidates(dependency_jars@),
            true,
        ),
{
    let mut candidates: Vec<JarEntry> = Vec::new();
    let mut i: usize = 0;
    while i < class_files.len()
        invariant
            i <= class_files@.len(),
            entry_views(candidates@) == entry_views(class_files@).subrange(0, i as int),
        decreases class_files.len() - i,
    {
        let ghost before = candidates@;
        candidates.push(clone_entry(&class_files[i]));
        assert(entry_views(candidates@) =~= entry_views(before).push(
            (class_files@[i as int].name@, class_files@[i as int].contents@),
        ));
        assert(entry_views(class_files@).subrange(0, i + 1) =~= entry_views(class_files@).subrange(
            0,
            i as int,
        ).push((class_files@[i as int].name@, class_files@[i as int].contents@)));
        i = i + 1;
    }
    assert(entry_views(class_files@).subrange(0, class_files@.len() as int) =~= entry_views(class_files@));
    let mut j: usize = 0;
    while j < dependency_jars.len()
        invariant
            j <= dependency_jars@.len(),
            entry_views(candidates@) == entry_views(class_files@) + dependency_candidates(
                dependency_jars@.subrange(0, j as int),
            ),
        decreases dependency_jars.len() - j,
    {
        let entries = &dependency_jars[j];
        let ghost base = entry_views(candidates@);
        let mut k: usize = 0;
        assert(entries@.subrange(0, 0) =~= Seq::<DependencyEntry>::empty());
        while k < entries.len()
            invariant
                k <= entries@.len(),
                entries == dependency_jars@[j as int],
                entry_views(candidates@) == base + jar_candidates(entries@.subrange(0, k as int)),
            decreases entries.len() - k,
        {
            let e = &entries[k];
            assert(entries@.subrange(0, k + 1).drop_last() =~= entries@.subrange(0, k as int));
            assert(entries@.subrange(0, k + 1).last() == entries@[k as int]);
            if !e.is_dir {
                let name = replace_char_str(e.name.as_str(), '\\', "/");
                if !should_skip_dependency_entry(name.as_str()) {
                    let ghost before = candidates@;
                    candidates.push(JarEntry { name, contents: clone_bytes(&e.contents) });
                    assert(entry_views(candidates@) =~= entry_views(before).push(
                        (candidates@.last().name@, candidates@.last().contents@),
                    ));
                }
            }
            k = k + 1;
        }
        assert(entries@.subrange(0, entries@.len() as int) =~= entries@);
        assert(dependency_jars@.subrange(0, j + 1).drop_last() =~= dependency_jars@.subrange(0, j as int));
        j = j + 1;
    }
    assert(dependency_jars@.subrange(0, dependency_jars@.len() as int) =~= dependency_jars@);
    let no_class_path: Vec<String> = Vec::new();
    assert(views(no_class_path@) =~= Seq::<Seq<char>>::empty());
    let manifest = build_manifest(main_class, &no_class_path);
    plan_entries(&manifest, &candidates, true)
}

} // verus!
