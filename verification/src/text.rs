use vstd::prelude::*;
use vstd::string::StringExecFns;

verus! {

/// The delimiter of the output tables.
#[derive(Clone, Copy, Debug)]
pub enum Separator {
    Comma,
    Semicolon,
    Tab,
}

pub open spec fn sep_chars(s: Separator) -> Seq<char> {
    match s {
        Separator::Comma => seq![','],
        Separator::Semicolon => seq![';'],
        Separator::Tab => seq!['\t'],
    }
}

impl Separator {
    /// The delimiter's text.
    pub fn to_string(self) -> (r: &'static str)
        ensures
            r@ == sep_chars(self),
    {
        match self {
            Separator::Comma => {
                let r = ",";
                proof {
                    reveal_strlit(",");
                    assert(r@ =~= seq![',']);
                }
                r
            },
            Separator::Semicolon => {
                let r = ";";
                proof {
                    reveal_strlit(";");
                    assert(r@ =~= seq![';']);
                }
                r
            },
            Separator::Tab => {
                let r = "\t";
                proof {
                    reveal_strlit("\t");
                    assert(r@ =~= seq!['\t']);
                }
                r
            },
        }
    }
}

/// Relies on String::push: appends exactly the one character.
#[verifier::external_body]
fn push_char(s: &mut String, c: char)
    ensures
        final(s)@ == old(s)@.push(c),
{
    s.push(c);
}

/// Relies on String's FromIterator over char: collects exactly the
/// characters, in order.
#[verifier::external_body]
fn chars_to_string(v: &Vec<char>) -> (r: String)
    ensures
        r@ == v@,
{
    v.iter().collect()
}

/// The views of a list of strings.
pub open spec fn views_of(v: Seq<String>) -> Seq<Seq<char>> {
    v.map_values(|l: String| l@)
}

/// A carriage return directly before the line break is not part of the
/// line.
pub open spec fn strip_cr(l: Seq<char>) -> Seq<char> {
    if l.len() > 0 && l.last() == '\r' {
        l.drop_last()
    } else {
        l
    }
}

/// Text split into lines at every line feed, the way the lines of a
/// file are read: a trailing line without a final line feed still
/// counts, an empty text has no lines.
pub open spec fn split_rec(s: Seq<char>, i: int, cur: Seq<char>, acc: Seq<Seq<char>>) -> Seq<
    Seq<char>,
>
    decreases s.len() - i,
{
    if i < 0 || i >= s.len() {
        if cur.len() == 0 {
            acc
        } else {
            acc.push(cur)
        }
    } else if s[i] == '\n' {
        split_rec(s, i + 1, Seq::empty(), acc.push(strip_cr(cur)))
    } else {
        split_rec(s, i + 1, cur.push(s[i]), acc)
    }
}

pub open spec fn lines_of(s: Seq<char>) -> Seq<Seq<char>> {
    split_rec(s, 0, Seq::empty(), Seq::empty())
}

proof fn lemma_split_grows(s: Seq<char>, i: int, cur: Seq<char>, acc: Seq<Seq<char>>)
    requires
        0 <= i,
    ensures
        split_rec(s, i, cur, acc).len() >= acc.len(),
        i < s.len() || cur.len() > 0 ==> split_rec(s, i, cur, acc).len() >= acc.len() + 1,
    decreases s.len() - i,
{
    if 0 <= i < s.len() {
        if s[i] == '\n' {
            lemma_split_grows(s, i + 1, Seq::empty(), acc.push(strip_cr(cur)));
        } else {
            lemma_split_grows(s, i + 1, cur.push(s[i]), acc);
        }
    }
}

/// Splits text into its lines.
pub fn split_lines(s: &str) -> (r: Vec<String>)
    ensures
        views_of(r@) == lines_of(s@),
{
    let n = s.unicode_len();
    let mut out: Vec<String> = Vec::new();
    let mut cur: Vec<char> = Vec::new();
    proof {
        assert(views_of(out@) =~= Seq::<Seq<char>>::empty());
    }
    for i in 0..n
        invariant
            n == s@.len(),
            split_rec(s@, i as int, cur@, views_of(out@)) == lines_of(s@),
    {
        let c = s.get_char(i);
        if c == '\n' {
            let ghost cur0 = cur@;
            let ghost out0 = out@;
            let mut v = cur;
            cur = Vec::new();
            if v.len() > 0 && v[v.len() - 1] == '\r' {
                v.pop();
            }
            proof {
                assert(v@ =~= strip_cr(cur0));
            }
            let l = chars_to_string(&v);
            out.push(l);
            proof {
                assert(views_of(out@) =~= views_of(out0).push(strip_cr(cur0)));
            }
        } else {
            cur.push(c);
        }
    }
    if cur.len() > 0 {
        let ghost out0 = out@;
        let ghost cur0 = cur@;
        let l = chars_to_string(&cur);
        out.push(l);
        proof {
            assert(views_of(out@) =~= views_of(out0).push(cur0));
        }
    }
    out
}

/// One merged-lines step of multi-line FASTA normalisation: a line
/// starting with '>' flushes the accumulated fragment before itself;
/// any other line joins the fragment.
pub open spec fn merge_rec(
    lines: Seq<Seq<char>>,
    k: int,
    buffer: Seq<char>,
    acc: Seq<Seq<char>>,
) -> Seq<Seq<char>>
    decreases lines.len() - k,
{
    if k < 0 || k >= lines.len() {
        acc
    } else if lines[k].len() > 0 && lines[k][0] == '>' {
        merge_rec(lines, k + 1, Seq::empty(), acc.push(buffer).push(lines[k]))
    } else {
        merge_rec(lines, k + 1, buffer + lines[k], acc)
    }
}

proof fn lemma_merge_grows(lines: Seq<Seq<char>>, k: int, buffer: Seq<char>, acc: Seq<Seq<char>>)
    ensures
        merge_rec(lines, k, buffer, acc).len() >= acc.len(),
    decreases lines.len() - k,
{
    if 0 <= k < lines.len() {
        if lines[k].len() > 0 && lines[k][0] == '>' {
            lemma_merge_grows(lines, k + 1, Seq::empty(), acc.push(buffer).push(lines[k]));
        } else {
            lemma_merge_grows(lines, k + 1, buffer + lines[k], acc);
        }
    }
}

/// What folding a multi-line FASTA text onto single lines yields: a
/// sentinel header line is appended, every run of sequence fragments
/// between headers is joined into one line, and the sentinel is dropped
/// again.
pub open spec fn merged_lines(s: Seq<char>) -> Seq<Seq<char>> {
    let ls = lines_of(s.push('\n').push('>'));
    merge_rec(ls, 1, Seq::empty(), seq![ls[0]]).drop_last()
}

/// Folds a FASTA text whose sequences span several lines onto one line
/// per record part: each header line stands alone and the fragment lines
/// between two headers are joined.
pub fn to_single_lines(mut file: String) -> (r: Vec<String>)
    requires
        file@.len() >= 1,
    ensures
        views_of(r@) == merged_lines(file@),
{
    let ghost orig = file@;
    push_char(&mut file, '\n');
    push_char(&mut file, '>');
    let lines = split_lines(file.as_str());
    proof {
        lemma_split_grows(file@, 0, Seq::empty(), Seq::empty());
    }
    let mut result: Vec<String> = Vec::new();
    let first = lines[0].clone();
    result.push(first);
    let mut buffer = String::new();
    let n = lines.len();
    let ghost ls = views_of(lines@);
    proof {
        assert(views_of(result@) =~= seq![ls[0]]);
        assert(buffer@ =~= Seq::<char>::empty());
    }
    let mut k: usize = 1;
    while k < n
        invariant
            n == lines@.len(),
            ls == views_of(lines@),
            1 <= k <= n,
            merge_rec(ls, k as int, buffer@, views_of(result@)) == merge_rec(
                ls,
                1,
                Seq::empty(),
                seq![ls[0]],
            ),
        decreases n - k,
    {
        let ghost res0 = result@;
        let ghost buf0 = buffer@;
        let line = &lines[k];
        let len = line.as_str().unicode_len();
        if len > 0 && line.as_str().get_char(0) == '>' {
            let b = buffer.clone();
            result.push(b);
            let l = line.clone();
            result.push(l);
            buffer = String::new();
            proof {
                let mid = res0.push(b);
                assert(views_of(mid) =~= views_of(res0).push(buf0));
                assert(views_of(result@) =~= views_of(mid).push(ls[k as int]));
            }
        } else {
            buffer.append(line.as_str());
        }
        k = k + 1;
    }
    let ghost resb = result@;
    proof {
        lemma_merge_grows(ls, 1, Seq::empty(), seq![ls[0]]);
        assert(merge_rec(ls, n as int, buffer@, views_of(resb)) == views_of(resb));
        assert(views_of(resb) == merge_rec(ls, 1, Seq::empty(), seq![ls[0]]));
        assert(views_of(resb).len() == resb.len());
    }
    result.pop();
    proof {
        assert(result@ == resb.drop_last());
        assert(views_of(result@) =~= views_of(resb).drop_last());
        assert(file@ == orig.push('\n').push('>'));
    }
    result
}

/// The greatest index of the character in the text, or minus one.
pub open spec fn find_last(s: Seq<char>, c: char) -> int
    decreases s.len(),
{
    if s.len() == 0 {
        -1
    } else if s.last() == c {
        s.len() - 1
    } else {
        find_last(s.drop_last(), c)
    }
}

fn find_last_exec(s: &str, c: char) -> (r: Option<usize>)
    ensures
        r is None ==> find_last(s@, c) == -1,
        r matches Some(p) ==> find_last(s@, c) == p && p < s@.len(),
{
    let n = s.unicode_len();
    let mut i: usize = n;
    proof {
        assert(s@.take(n as int) =~= s@);
    }
    while i > 0
        invariant
            n == s@.len(),
            0 <= i <= n,
            find_last(s@, c) == find_last(s@.take(i as int), c),
        decreases i,
    {
        proof {
            assert(s@.take(i as int).drop_last() =~= s@.take(i as int - 1));
        }
        if s.get_char(i - 1) == c {
            return Some(i - 1);
        }
        i = i - 1;
    }
    proof {
        assert(s@.take(0) =~= Seq::<char>::empty());
    }
    None
}

pub open spec fn csv_suffix() -> Seq<char> {
    seq!['.', 'c', 's', 'v']
}

/// The default output path derived from an input path: its directory
/// part kept, the file name's extension replaced by "csv".
pub open spec fn output_path_spec(p: Seq<char>) -> Seq<char> {
    let slash = find_last(p, '/');
    let name = p.subrange(slash + 1, p.len() as int);
    let dot = find_last(name, '.');
    let stem = if dot <= 0 {
        name
    } else {
        name.subrange(0, dot)
    };
    let base = if slash == -1 {
        stem
    } else if slash == 0 {
        seq!['/'] + stem
    } else {
        p.subrange(0, slash) + seq!['/'] + stem
    };
    base + csv_suffix()
}

/// Derives the default output file path from the input path.
pub fn get_output_file_path(path: &String) -> (r: String)
    ensures
        r@ == output_path_spec(path@),
{
    let s = path.as_str();
    let n = s.unicode_len();
    let slash = find_last_exec(s, '/');
    let name_start: usize = match slash {
        None => 0,
        Some(p) => p + 1,
    };
    let name = s.substring_char(name_start, n);
    let dot = find_last_exec(name, '.');
    let stem: &str = match dot {
        None => name,
        Some(0) => name,
        Some(d) => name.substring_char(0, d),
    };
    let mut out = String::new();
    match slash {
        None => {},
        Some(0) => {
            push_char(&mut out, '/');
        },
        Some(p) => {
            let parent = s.substring_char(0, p);
            out.append(parent);
            push_char(&mut out, '/');
        },
    }
    out.append(stem);
    let suffix = ".csv";
    proof {
        reveal_strlit(".csv");
        assert(suffix@ =~= csv_suffix());
    }
    out.append(suffix);
    proof {
        assert(out@ =~= output_path_spec(path@));
    }
    out
}

/// The parts joined with the separator between them.
pub open spec fn join(parts: Seq<Seq<char>>, sep: Seq<char>) -> Seq<char>
    decreases parts.len(),
{
    if parts.len() == 0 {
        Seq::empty()
    } else if parts.len() == 1 {
        parts[0]
    } else {
        join(parts.drop_last(), sep) + sep + parts.last()
    }
}

fn join_strings(parts: &Vec<String>, sep: &str) -> (r: String)
    ensures
        r@ == join(views_of(parts@), sep@),
{
    let mut out = String::new();
    let n = parts.len();
    for i in 0..n
        invariant
            n == parts@.len(),
            out@ == join(views_of(parts@.take(i as int)), sep@),
    {
        if i > 0 {
            out.append(sep);
        }
        out.append(parts[i].as_str());
        proof {
            assert(views_of(parts@.take(i as int + 1)).drop_last() =~= views_of(
                parts@.take(i as int),
            ));
            assert(views_of(parts@.take(i as int + 1)).last() == parts@[i as int]@);
        }
    }
    proof {
        assert(parts@.take(n as int) =~= parts@);
    }
    out
}

/// The names of the species that the header column h gathers: those
/// whose group comes just before h; column zero gathers none.
pub open spec fn names_of_column(species: Seq<String>, groups: Seq<usize>, h: int) -> Seq<
    Seq<char>,
>
    decreases species.len(),
{
    if species.len() == 0 {
        Seq::empty()
    } else {
        let pre = names_of_column(species.drop_last(), groups.drop_last(), h);
        if groups[groups.len() - 1] + 1 == h {
            pre.push(species.last()@)
        } else {
            pre
        }
    }
}

/// One row label or header column: the gathered names joined by "-".
pub open spec fn column_label(species: Seq<String>, groups: Seq<usize>, h: int) -> Seq<char> {
    join(names_of_column(species, groups, h), seq!['-'])
}

/// The whole delimited table: a header line of group labels (the first
/// column empty), then one line per matrix row, the row's label first
/// and then its already rendered cells, all joined by the separator.
pub open spec fn table_spec(
    cells: Seq<Seq<String>>,
    species: Seq<String>,
    groups: Seq<usize>,
    sep: Seq<char>,
    n_cols: int,
) -> Seq<char> {
    let header = Seq::new((n_cols + 1) as nat, |h: int| column_label(species, groups, h));
    let lines = Seq::new(
        (cells.len() + 1) as nat,
        |r: int|
            if r == 0 {
                join(header, sep)
            } else {
                column_label(species, groups, r) + sep + join(views_of(cells[r - 1]), sep)
            },
    );
    join(lines, seq!['\n'])
}

/// Renders the matrix of already formatted cells as delimited text with
/// its species-group header line and row labels.
pub fn to_sv(
    cells: &Vec<Vec<String>>,
    species: &Vec<String>,
    groups: &Vec<usize>,
    separator: Separator,
    n_cols: usize,
) -> (r: String)
    requires
        species@.len() == groups@.len(),
        cells@.len() == n_cols,
        n_cols + 1 <= usize::MAX,
        forall|i: int| 0 <= i < groups@.len() ==> (#[trigger] groups@[i]) < n_cols,
    ensures
        r@ == table_spec(cells@.map_values(|row: Vec<String>| row@), species@, groups@, sep_chars(separator), n_cols as int),
{
    let sep = separator.to_string();
    let mut header: Vec<String> = Vec::new();
    for h in 0..(n_cols + 1)
        invariant
            species@.len() == groups@.len(),
            n_cols + 1 <= usize::MAX,
            forall|i: int| 0 <= i < groups@.len() ==> (#[trigger] groups@[i]) < n_cols,
            header@.len() == h,
            forall|hh: int|
                0 <= hh < h ==> (#[trigger] header@[hh])@ == column_label(species@, groups@, hh),
    {
        let mut parts: Vec<String> = Vec::new();
        let m = species.len();
        for i in 0..m
            invariant
                m == species@.len(),
                species@.len() == groups@.len(),
                n_cols + 1 <= usize::MAX,
                forall|ii: int| 0 <= ii < groups@.len() ==> (#[trigger] groups@[ii]) < n_cols,
                views_of(parts@) == names_of_column(species@.take(i as int), groups@.take(i as int), h as int),
        {
            proof {
                assert(species@.take(i as int + 1).drop_last() =~= species@.take(i as int));
                assert(groups@.take(i as int + 1).drop_last() =~= groups@.take(i as int));
            }
            if groups[i] + 1 == h {
                let nm = species[i].clone();
                parts.push(nm);
                proof {
                    assert(views_of(parts@) =~= views_of(parts@.drop_last()).push(species@[i as int]@));
                }
            }
        }
        proof {
            assert(species@.take(m as int) =~= species@);
            assert(groups@.take(m as int) =~= groups@);
        }
        let label = join_strings(&parts, "-");
        proof {
            reveal_strlit("-");
            assert("-"@ =~= seq!['-']);
        }
        header.push(label);
    }
    proof {
        assert(views_of(header@) =~= Seq::new(
            (n_cols + 1) as nat,
            |h: int| column_label(species@, groups@, h),
        ));
    }
    let mut lines: Vec<String> = Vec::new();
    let hline = join_strings(&header, sep);
    lines.push(hline);
    let nr = cells.len();
    for r in 0..nr
        invariant
            nr == cells@.len(),
            nr == n_cols,
            species@.len() == groups@.len(),
            header@.len() == n_cols + 1,
            forall|hh: int|
                0 <= hh < header@.len() ==> (#[trigger] header@[hh])@ == column_label(
                    species@,
                    groups@,
                    hh,
                ),
            lines@.len() == r + 1,
            lines@[0]@ == join(
                Seq::new((n_cols + 1) as nat, |h: int| column_label(species@, groups@, h)),
                sep_chars(separator),
            ),
            forall|rr: int|
                0 <= rr < r ==> (#[trigger] lines@[rr + 1])@ == column_label(species@, groups@, rr + 1)
                    + sep_chars(separator) + join(views_of(cells@[rr]@), sep_chars(separator)),
            sep@ == sep_chars(separator),
    {
        let mut line: String = header[r + 1].clone();
        line.append(sep);
        let body = join_strings(&cells[r], sep);
        line.append(body.as_str());
        lines.push(line);
    }
    let out = join_strings(&lines, "\n");
    proof {
        reveal_strlit("\n");
        assert("\n"@ =~= seq!['\n']);
        let gcells = cells@.map_values(|row: Vec<String>| row@);
        let header_spec = Seq::new((n_cols + 1) as nat, |h: int| column_label(species@, groups@, h));
        let lines_spec = Seq::new(
            (cells@.len() + 1) as nat,
            |r: int|
                if r == 0 {
                    join(header_spec, sep_chars(separator))
                } else {
                    column_label(species@, groups@, r) + sep_chars(separator) + join(
                        views_of(gcells[r - 1]),
                        sep_chars(separator),
                    )
                },
        );
        assert forall|r: int| 0 <= r < lines@.len() implies views_of(lines@)[r] == lines_spec[r] by {
            assert(views_of(lines@)[r] == lines@[r]@);
            if r >= 1 {
                assert(gcells[r - 1] == cells@[r - 1]@);
                assert(lines@[(r - 1) + 1]@ == column_label(species@, groups@, (r - 1) + 1)
                    + sep_chars(separator) + join(
                    views_of(cells@[r - 1]@),
                    sep_chars(separator),
                ));
            }
        }
        assert(views_of(lines@) =~= lines_spec);
    }
    out
}

} // verus!
