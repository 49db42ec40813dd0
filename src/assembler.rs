//! The front of the textual assembler: the `.text` section, split into lines, with labels resolved
//! to line numbers. Encoding the lines into instructions is not provided.
use vstd::prelude::*;

verus! {

/// `p` occurs in `s` at `i`.
pub open spec fn matches_at(s: Seq<u8>, i: int, p: Seq<u8>) -> bool {
    0 <= i && i + p.len() <= s.len() && s.subrange(i, i + p.len()) == p
}

/// The first position at or after `i` where `p` occurs in `s`.
pub open spec fn first_match_from(s: Seq<u8>, p: Seq<u8>, i: int) -> Option<int>
    decreases s.len() + 1 - i,
{
    if i < 0 || i + p.len() > s.len() {
        None
    } else if matches_at(s, i, p) {
        Some(i)
    } else {
        first_match_from(s, p, i + 1)
    }
}

/// The first position where `p` occurs in `s`.
pub open spec fn first_match(s: Seq<u8>, p: Seq<u8>) -> Option<int> {
    first_match_from(s, p, 0)
}

/// After reading the first `i` bytes of `s`: the lines ended by a newline, and the line being read.
pub open spec fn split_scan(s: Seq<u8>, i: int) -> (Seq<Seq<u8>>, Seq<u8>)
    decreases i,
{
    if i <= 0 {
        (Seq::empty(), Seq::empty())
    } else {
        let (lines, cur) = split_scan(s, i - 1);
        if s[i - 1] == 0x0A {
            (lines.push(cur), Seq::empty())
        } else {
            (lines, cur.push(s[i - 1]))
        }
    }
}

/// `s` cut at every newline: one more piece than there are newlines.
pub open spec fn split_lines(s: Seq<u8>) -> Seq<Seq<u8>> {
    let (lines, cur) = split_scan(s, s.len() as int);
    lines.push(cur)
}

pub open spec fn text_marker() -> Seq<u8> {
    seq![0x2Eu8, 0x74, 0x65, 0x78, 0x74]
}

pub open spec fn section_marker() -> Seq<u8> {
    seq![0x2Eu8, 0x73, 0x65, 0x63, 0x74, 0x69, 0x6F, 0x6E]
}

/// The lines of the program text: those after the first `.text`, or all lines of a source
/// without any `.section`; `None` for a source with sections but no `.text`.
pub open spec fn section_text(src: Seq<u8>) -> Option<Seq<Seq<u8>>> {
    match first_match(src, text_marker()) {
        Some(k) => Some(split_lines(src.subrange(k + 5, src.len() as int))),
        None => if first_match(src, section_marker()) is None {
            Some(split_lines(src))
        } else {
            None
        },
    }
}

/// `s` with each occurrence of `p` (`p` not empty), taken from left to right without overlap,
/// replaced by `r`.
pub open spec fn replace_all(s: Seq<u8>, p: Seq<u8>, r: Seq<u8>) -> Seq<u8>
    decreases s.len(),
{
    if p.len() == 0 || s.len() < p.len() {
        s
    } else if s.subrange(0, p.len() as int) == p {
        r + replace_all(s.subrange(p.len() as int, s.len() as int), p, r)
    } else {
        seq![s[0]] + replace_all(s.subrange(1, s.len() as int), p, r)
    }
}

/// The decimal digits of `n`.
pub open spec fn decimal(n: nat) -> Seq<u8>
    decreases n,
{
    if n < 10 {
        seq![(0x30 + n) as u8]
    } else {
        decimal(n / 10).push((0x30 + n % 10) as u8)
    }
}

pub open spec fn colon() -> Seq<u8> {
    seq![0x3Au8]
}

/// The label that `line` defines: the text before its first `:`.
pub open spec fn label_of(line: Seq<u8>) -> Option<Seq<u8>> {
    match first_match(line, colon()) {
        Some(k) => Some(line.subrange(0, k)),
        None => None,
    }
}

/// `line` without the label it defines; the `:` stays.
pub open spec fn strip_label(line: Seq<u8>) -> Seq<u8> {
    match first_match(line, colon()) {
        Some(k) => line.subrange(k, line.len() as int),
        None => line,
    }
}

/// Line `j` gives the value of its label: the label is not empty and no later line defines it.
pub open spec fn defines_label(text: Seq<Seq<u8>>, j: int) -> bool {
    &&& label_of(text[j]) is Some
    &&& label_of(text[j])->0.len() > 0
    &&& forall|k: int| j < k < text.len() ==> label_of(#[trigger] text[k]) != label_of(text[j])
}

/// `line` after the labels defined on lines `0..j` are replaced by their line numbers, in line order.
pub open spec fn substitute(line: Seq<u8>, text: Seq<Seq<u8>>, j: int) -> Seq<u8>
    decreases j,
{
    if j <= 0 {
        line
    } else {
        let prev = substitute(line, text, j - 1);
        if defines_label(text, j - 1) {
            replace_all(prev, label_of(text[j - 1])->0, decimal((j - 1) as nat))
        } else {
            prev
        }
    }
}

/// The lines of `text` with labels removed from their definitions and replaced by line numbers
/// where they are used.
pub open spec fn resolved(text: Seq<Seq<u8>>) -> Seq<Seq<u8>> {
    Seq::new(text.len(), |i: int| substitute(strip_label(text[i]), text, text.len() as int))
}

/// The views of a list of lines.
pub open spec fn lines_view(v: Seq<Vec<u8>>) -> Seq<Seq<u8>> {
    Seq::new(v.len(), |i: int| v[i]@)
}

fn matches_at_exec(s: &[u8], i: usize, p: &[u8]) -> (r: bool)
    ensures
        r == matches_at(s@, i as int, p@),
{
    if i > s.len() || p.len() > s.len() - i {
        return false;
    }
    let mut k: usize = 0;
    while k < p.len()
        invariant
            i + p@.len() <= s@.len() <= usize::MAX,
            k <= p@.len(),
            forall|m: int| 0 <= m < k ==> s@[i + m] == p@[m],
        decreases p@.len() - k,
    {
        if s[i + k] != p[k] {
            assert(s@.subrange(i as int, i + p@.len())[k as int] != p@[k as int]);
            return false;
        }
        k = k + 1;
    }
    assert(s@.subrange(i as int, i + p@.len()) =~= p@);
    true
}

proof fn lemma_first_match_from(s: Seq<u8>, p: Seq<u8>, i: int)
    ensures
        first_match_from(s, p, i) matches Some(k) ==> i <= k && matches_at(s, k, p),
    decreases s.len() + 1 - i,
{
    if !(i < 0 || i + p.len() > s.len()) && !matches_at(s, i, p) {
        lemma_first_match_from(s, p, i + 1);
    }
}

/// The first position where `p` occurs in `s`.
pub fn find_first(s: &[u8], p: &[u8]) -> (r: Option<usize>)
    ensures
        r matches Some(k) ==> first_match(s@, p@) == Some(k as int) && k + p@.len() <= s@.len(),
        r is None ==> first_match(s@, p@) is None,
{
    proof {
        lemma_first_match_from(s@, p@, 0);
    }
    let mut i: usize = 0;
    while i < s.len()
        invariant
            i <= s@.len(),
            first_match(s@, p@) == first_match_from(s@, p@, i as int),
        decreases s@.len() - i,
    {
        if p.len() > s.len() - i {
            return None;
        }
        if matches_at_exec(s, i, p) {
            return Some(i);
        }
        i = i + 1;
    }
    if p.len() == 0 {
        assert(s@.subrange(i as int, i as int) =~= p@);
        Some(i)
    } else {
        None
    }
}

/// `s` cut at every newline.
pub fn split_at_newlines(s: &[u8]) -> (r: Vec<Vec<u8>>)
    ensures
        lines_view(r@) == split_lines(s@),
{
    let mut lines: Vec<Vec<u8>> = Vec::new();
    let mut cur: Vec<u8> = Vec::new();
    let mut i: usize = 0;
    while i < s.len()
        invariant
            i <= s@.len(),
            lines_view(lines@) == split_scan(s@, i as int).0,
            cur@ == split_scan(s@, i as int).1,
        decreases s@.len() - i,
    {
        if s[i] == 0x0A {
            let line = cur;
            cur = Vec::new();
            lines.push(line);
            assert(lines_view(lines@) =~= split_scan(s@, i + 1).0);
        } else {
            cur.push(s[i]);
        }
        i = i + 1;
    }
    lines.push(cur);
    assert(lines_view(lines@) =~= split_lines(s@));
    lines
}

/// The lines of the program text of `src` (see `section_text`).
pub fn get_section_text(src: &[u8]) -> (r: Option<Vec<Vec<u8>>>)
    ensures
        match section_text(src@) {
            Some(lines) => r matches Some(v) && lines_view(v@) == lines,
            None => r is None,
        },
{
    let text: [u8; 5] = [0x2E, 0x74, 0x65, 0x78, 0x74];
    let section: [u8; 8] = [0x2E, 0x73, 0x65, 0x63, 0x74, 0x69, 0x6F, 0x6E];
    assert(text@ =~= text_marker());
    assert(section@ =~= section_marker());
    match find_first(src, text.as_slice()) {
        Some(k) => {
            let len = src.len();
            let mut rest: Vec<u8> = Vec::new();
            let mut i: usize = k + 5;
            while i < len
                invariant
                    len == src@.len(),
                    k + 5 <= i <= src@.len(),
                    rest@ =~= src@.subrange(k + 5, i as int),
                decreases src@.len() - i,
            {
                rest.push(src[i]);
                i = i + 1;
            }
            Some(split_at_newlines(rest.as_slice()))
        },
        None => {
            if find_first(src, section.as_slice()).is_none() {
                Some(split_at_newlines(src))
            } else {
                None
            }
        },
    }
}

/// The decimal digits of `n`.
pub fn decimal_digits(n: usize) -> (r: Vec<u8>)
    ensures
        r@ == decimal(n as nat),
    decreases n,
{
    if n < 10 {
        let mut v: Vec<u8> = Vec::new();
        v.push(0x30 + n as u8);
        assert(v@ =~= decimal(n as nat));
        v
    } else {
        let mut v = decimal_digits(n / 10);
        v.push(0x30 + (n % 10) as u8);
        v
    }
}

proof fn lemma_replace_step(s: Seq<u8>, p: Seq<u8>, r: Seq<u8>, i: int)
    requires
        p.len() > 0,
        0 <= i <= s.len(),
    ensures
        i + p.len() > s.len() ==> replace_all(s.subrange(i, s.len() as int), p, r) == s.subrange(
            i,
            s.len() as int,
        ),
        i + p.len() <= s.len() && matches_at(s, i, p) ==> replace_all(s.subrange(i, s.len() as int), p, r)
            == r + replace_all(s.subrange(i + p.len(), s.len() as int), p, r),
        i + p.len() <= s.len() && !matches_at(s, i, p) ==> replace_all(
            s.subrange(i, s.len() as int),
            p,
            r,
        ) == seq![s[i]] + replace_all(s.subrange(i + 1, s.len() as int), p, r),
{
    let t = s.subrange(i, s.len() as int);
    if i + p.len() <= s.len() {
        assert(t.subrange(0, p.len() as int) =~= s.subrange(i, i + p.len()));
        assert(t.subrange(p.len() as int, t.len() as int) =~= s.subrange(i + p.len(), s.len() as int));
        assert(t.subrange(1, t.len() as int) =~= s.subrange(i + 1, s.len() as int));
    }
}

/// `s` with each occurrence of `p`, from left to right, replaced by `r`.
pub fn replace_bytes(s: &Vec<u8>, p: &Vec<u8>, r: &Vec<u8>) -> (out: Vec<u8>)
    requires
        p@.len() > 0,
    ensures
        out@ == replace_all(s@, p@, r@),
{
    let mut out: Vec<u8> = Vec::new();
    let mut i: usize = 0;
    assert(s@.subrange(0, s@.len() as int) =~= s@);
    while i < s.len() && p.len() <= s.len() - i
        invariant
            p@.len() > 0,
            i <= s@.len(),
            out@ + replace_all(s@.subrange(i as int, s@.len() as int), p@, r@) == replace_all(
                s@,
                p@,
                r@,
            ),
        decreases s@.len() - i,
    {
        proof {
            lemma_replace_step(s@, p@, r@, i as int);
        }
        if matches_at_exec(s.as_slice(), i, p.as_slice()) {
            let ghost before = out@;
            let mut k: usize = 0;
            while k < r.len()
                invariant
                    k <= r@.len(),
                    out@ == before + r@.subrange(0, k as int),
                decreases r@.len() - k,
            {
                out.push(r[k]);
                k = k + 1;
                assert(out@ =~= before + r@.subrange(0, k as int));
            }
            assert(r@.subrange(0, k as int) =~= r@);
            assert(before + (r@ + replace_all(s@.subrange(i + p@.len(), s@.len() as int), p@, r@))
                =~= out@ + replace_all(s@.subrange(i + p@.len(), s@.len() as int), p@, r@));
            i = i + p.len();
        } else {
            let ghost before = out@;
            out.push(s[i]);
            assert(before + (seq![s@[i as int]] + replace_all(s@.subrange(i + 1, s@.len() as int), p@, r@))
                =~= out@ + replace_all(s@.subrange(i + 1, s@.len() as int), p@, r@));
            i = i + 1;
        }
    }
    proof {
        lemma_replace_step(s@, p@, r@, i as int);
    }
    assert(out@ + s@.subrange(i as int, s@.len() as int) == replace_all(s@, p@, r@));
    let mut j: usize = i;
    while j < s.len()
        invariant
            i <= j <= s@.len(),
            out@ + s@.subrange(j as int, s@.len() as int) == replace_all(s@, p@, r@),
        decreases s@.len() - j,
    {
        let ghost before = out@;
        out.push(s[j]);
        assert(before + s@.subrange(j as int, s@.len() as int) =~= out@ + s@.subrange(j + 1, s@.len() as int));
        j = j + 1;
    }
    assert(out@ =~= out@ + s@.subrange(j as int, s@.len() as int));
    out
}

/// The view of an optional line.
pub open spec fn opt_view(o: Option<Vec<u8>>) -> Option<Seq<u8>> {
    match o {
        Some(v) => Some(v@),
        None => None,
    }
}

fn copy_range(v: &Vec<u8>, a: usize, b: usize) -> (r: Vec<u8>)
    requires
        a <= b <= v@.len(),
    ensures
        r@ == v@.subrange(a as int, b as int),
{
    let mut r: Vec<u8> = Vec::new();
    let mut i: usize = a;
    while i < b
        invariant
            a <= i <= b <= v@.len(),
            r@ =~= v@.subrange(a as int, i as int),
        decreases b - i,
    {
        r.push(v[i]);
        i = i + 1;
    }
    r
}

fn same_bytes(a: &Vec<u8>, b: &Vec<u8>) -> (r: bool)
    ensures
        r == (a@ == b@),
{
    if a.len() != b.len() {
        return false;
    }
    let mut i: usize = 0;
    while i < a.len()
        invariant
            a@.len() == b@.len(),
            i <= a@.len(),
            forall|k: int| 0 <= k < i ==> a@[k] == b@[k],
        decreases a@.len() - i,
    {
        if a[i] != b[i] {
            return false;
        }
        i = i + 1;
    }
    assert(a@ =~= b@);
    true
}

/// The label that `line` defines, and `line` without it.
fn split_label(line: &Vec<u8>) -> (r: (Option<Vec<u8>>, Vec<u8>))
    ensures
        opt_view(r.0) == label_of(line@),
        r.1@ == strip_label(line@),
{
    let colon_byte: [u8; 1] = [0x3A];
    assert(colon_byte@ =~= colon());
    match find_first(line.as_slice(), colon_byte.as_slice()) {
        Some(k) => (Some(copy_range(line, 0, k)), copy_range(line, k, line.len())),
        None => (None, copy_range(line, 0, line.len())),
    }
}

/// The lines of `text` with each label definition removed and each use of a label replaced by the
/// number of the line that defines it. A label defined twice takes its last line; labels are
/// replaced in the order of their lines.
pub fn resolve_labels(text: &Vec<Vec<u8>>) -> (r: Vec<Vec<u8>>)
    ensures
        lines_view(r@) == resolved(lines_view(text@)),
{
    let ghost tv = lines_view(text@);
    let n = text.len();
    let mut labels: Vec<Option<Vec<u8>>> = Vec::new();
    let mut stripped: Vec<Vec<u8>> = Vec::new();
    let mut i: usize = 0;
    while i < n
        invariant
            n == text@.len(),
            tv == lines_view(text@),
            i <= n,
            labels@.len() == i,
            stripped@.len() == i,
            forall|k: int| 0 <= k < i ==> opt_view(#[trigger] labels@[k]) == label_of(tv[k]),
            forall|k: int| 0 <= k < i ==> (#[trigger] stripped@[k])@ == strip_label(tv[k]),
        decreases n - i,
    {
        let (label, rest) = split_label(&text[i]);
        labels.push(label);
        stripped.push(rest);
        i = i + 1;
    }
    let mut defines: Vec<bool> = Vec::new();
    let mut j: usize = 0;
    while j < n
        invariant
            n == text@.len(),
            tv == lines_view(text@),
            j <= n,
            labels@.len() == n,
            forall|k: int| 0 <= k < n ==> opt_view(#[trigger] labels@[k]) == label_of(tv[k]),
            defines@.len() == j,
            forall|k: int| 0 <= k < j ==> #[trigger] defines@[k] == defines_label(tv, k),
        decreases n - j,
    {
        let d = match &labels[j] {
            Some(l) => {
                if l.len() == 0 {
                    false
                } else {
                    let mut later = true;
                    let mut k: usize = j + 1;
                    while k < n
                        invariant
                            j < k <= n,
                            labels@.len() == n,
                            forall|m: int| 0 <= m < n ==> opt_view(#[trigger] labels@[m]) == label_of(tv[m]),
                            opt_view(labels@[j as int]) == Some(l@),
                            later == forall|m: int| j < m < k ==> label_of(#[trigger] tv[m]) != Some(l@),
                        decreases n - k,
                    {
                        let differs = match &labels[k] {
                            Some(o) => !same_bytes(o, l),
                            None => true,
                        };
                        proof {
                            assert(opt_view(labels@[k as int]) == label_of(tv[k as int]));
                        }
                        later = later && differs;
                        k = k + 1;
                    }
                    later
                }
            },
            None => false,
        };
        defines.push(d);
        j = j + 1;
    }
    let mut out: Vec<Vec<u8>> = Vec::new();
    let mut i: usize = 0;
    while i < n
        invariant
            n == text@.len(),
            tv == lines_view(text@),
            i <= n,
            labels@.len() == n,
            stripped@.len() == n,
            defines@.len() == n,
            forall|k: int| 0 <= k < n ==> opt_view(#[trigger] labels@[k]) == label_of(tv[k]),
            forall|k: int| 0 <= k < n ==> (#[trigger] stripped@[k])@ == strip_label(tv[k]),
            forall|k: int| 0 <= k < n ==> #[trigger] defines@[k] == defines_label(tv, k),
            out@.len() == i,
            lines_view(out@) =~= resolved(tv).subrange(0, i as int),
        decreases n - i,
    {
        let mut line = copy_range(&stripped[i], 0, stripped[i].len());
        let mut j: usize = 0;
        while j < n
            invariant
                n == tv.len(),
                j <= n,
                i < n,
                labels@.len() == n,
                defines@.len() == n,
                forall|k: int| 0 <= k < n ==> opt_view(#[trigger] labels@[k]) == label_of(tv[k]),
                forall|k: int| 0 <= k < n ==> #[trigger] defines@[k] == defines_label(tv, k),
                line@ == substitute(strip_label(tv[i as int]), tv, j as int),
            decreases n - j,
        {
            if defines[j] {
                match &labels[j] {
                    Some(l) => {
                        line = replace_bytes(&line, l, &decimal_digits(j));
                    },
                    None => {},
                }
            }
            j = j + 1;
        }
        let ghost before = out@;
        let ghost lv = line@;
        assert(lv == resolved(tv)[i as int]);
        out.push(line);
        proof {
            assert(out@ == before.push(line));
            assert forall|k: int| 0 <= k < i + 1 implies #[trigger] lines_view(out@)[k] == resolved(tv)[k] by {
                if k < i {
                    assert(out@[k] == before[k]);
                    assert(lines_view(before)[k] == resolved(tv).subrange(0, i as int)[k]);
                } else {
                    assert(out@[k]@ == lv);
                }
            }
            assert(lines_view(out@) =~= resolved(tv).subrange(0, i + 1));
        }
        i = i + 1;
    }
    assert(resolved(tv).subrange(0, n as int) =~= resolved(tv));
    out
}

/// Reads the program text of an assembly source and resolves its labels: the lines that an
/// encoder would turn into instructions. `None` when the source has sections but no `.text`.
pub fn assemble_and_load(src: &[u8]) -> (r: Option<Vec<Vec<u8>>>)
    ensures
        match section_text(src@) {
            Some(lines) => r matches Some(v) && lines_view(v@) == resolved(lines),
            None => r is None,
        },
{
    match get_section_text(src) {
        Some(text) => Some(resolve_labels(&text)),
        None => None,
    }
}

} // verus!
