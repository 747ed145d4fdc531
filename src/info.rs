//! The version-info record and its `key=value` file form.
use vstd::prelude::*;
use crate::error::ArkhamError;
use crate::text::{chars_of, push_str, same_chars, string_of, views};

verus! {

/// What the project is called, the version it is on, and where it lives.
#[derive(Debug, Clone)]
pub struct ProjectInfo {
    pub project_name: String,
    pub current_version: String,
    pub project_root: String,
}

pub open spec fn free_of_eq(s: Seq<char>) -> bool {
    forall|i: int| 0 <= i < s.len() ==> s[i] != '='
}

/// `i` is the position of the only `=` of the line.
pub open spec fn eq_split_ok(line: Seq<char>, i: int) -> bool {
    0 <= i < line.len() && line[i] == '=' && free_of_eq(line.take(i)) && free_of_eq(line.skip(i + 1))
}

pub open spec fn line_ok(line: Seq<char>) -> bool {
    exists|i: int| eq_split_ok(line, i)
}

pub open spec fn line_key(line: Seq<char>) -> Seq<char> {
    line.take(choose|i: int| eq_split_ok(line, i))
}

pub open spec fn line_value(line: Seq<char>) -> Seq<char> {
    line.skip((choose|i: int| eq_split_ok(line, i)) + 1)
}

/// Name, version and root after the first `upto` lines, later lines
/// overriding earlier ones, or `None` if one of those lines is malformed.
pub open spec fn info_fields(lines: Seq<Seq<char>>, upto: int) -> Option<(Seq<char>, Seq<char>, Seq<char>)>
    decreases upto,
{
    if upto <= 0 {
        Some((Seq::empty(), Seq::empty(), Seq::empty()))
    } else {
        match info_fields(lines, upto - 1) {
            None => None,
            Some(t) => {
                let l = lines[upto - 1];
                if !line_ok(l) {
                    None
                } else if line_key(l) == "project_name"@ {
                    Some((line_value(l), t.1, t.2))
                } else if line_key(l) == "current_version"@ {
                    Some((t.0, line_value(l), t.2))
                } else if line_key(l) == "project_root"@ {
                    Some((t.0, t.1, line_value(l)))
                } else {
                    Some(t)
                }
            },
        }
    }
}

pub open spec fn info_text(name: Seq<char>, version: Seq<char>, root: Seq<char>) -> Seq<char> {
    "project_name="@ + name + "\ncurrent_version="@ + version + "\nproject_root="@ + root + "\n"@
}

impl ProjectInfo {
    pub fn new(name: String, version: String, root: String) -> (r: ProjectInfo)
        ensures
            r.project_name == name,
            r.current_version == version,
            r.project_root == root,
    {
        ProjectInfo { project_name: name, current_version: version, project_root: root }
    }

    /// The file form: three `key=value` lines.
    pub fn to_file_text(&self) -> (r: String)
        ensures
            r@ == info_text(self.project_name@, self.current_version@, self.project_root@),
    {
        let mut out: Vec<char> = Vec::new();
        push_str(&mut out, "project_name=");
        push_str(&mut out, self.project_name.as_str());
        push_str(&mut out, "\ncurrent_version=");
        push_str(&mut out, self.current_version.as_str());
        push_str(&mut out, "\nproject_root=");
        push_str(&mut out, self.project_root.as_str());
        push_str(&mut out, "\n");
        assert(out@ =~= info_text(self.project_name@, self.current_version@, self.project_root@));
        string_of(&out)
    }

    /// Reads the lines of the file. A line without exactly one `=` fails;
    /// unknown keys are ignored; an empty name or version fails.
    pub fn parse_lines(lines: &Vec<String>) -> (r: Result<ProjectInfo, ArkhamError>)
        ensures
            ({
                let o = info_fields(views(lines@), lines@.len() as int);
                let t = match o {
                    Some(t) => t,
                    None => (Seq::<char>::empty(), Seq::<char>::empty(), Seq::<char>::empty()),
                };
                match r {
                    Ok(info) => o is Some && t.0.len() > 0 && t.1.len() > 0
                        && info.project_name@ == t.0 && info.current_version@ == t.1
                        && info.project_root@ == t.2,
                    Err(e) => e is CorruptVersionInfo && if o is None {
                        e->CorruptVersionInfo_0@ == "Invalid format in Version file"@
                    } else {
                        (t.0.len() == 0 || t.1.len() == 0)
                            && e->CorruptVersionInfo_0@ == "Invalid Version info please check: .version.info"@
                    },
                }
            }),
    {
        let ghost ls = views(lines@);
        let k_name = chars_of("project_name");
        let k_version = chars_of("current_version");
        let k_root = chars_of("project_root");
        let mut name: Vec<char> = Vec::new();
        let mut version: Vec<char> = Vec::new();
        let mut root: Vec<char> = Vec::new();
        let mut j: usize = 0;
        while j < lines.len()
            invariant
                j <= lines@.len(),
                ls == views(lines@),
                k_name@ == "project_name"@,
                k_version@ == "current_version"@,
                k_root@ == "project_root"@,
                info_fields(ls, j as int) == Some((name@, version@, root@)),
            decreases lines@.len() - j,
        {
            let l = chars_of(lines[j].as_str());
            assert(ls[j as int] == l@);
            let n = l.len();
            let mut p: usize = 0;
            while p < n && l[p] != '='
                invariant
                    p <= n == l@.len(),
                    forall|t: int| 0 <= t < p ==> l@[t] != '=',
                decreases n - p,
            {
                p += 1;
            }
            let mut q: usize = if p < n { p + 1 } else { n };
            while q < n && l[q] != '='
                invariant
                    p < n ==> p + 1 <= q,
                    q <= n == l@.len(),
                    forall|t: int| p < t < q ==> l@[t] != '=',
                decreases n - q,
            {
                q += 1;
            }
            if p >= n || q < n {
                proof {
                    assert forall|i: int| !eq_split_ok(l@, i) by {
                        if eq_split_ok(l@, i) {
                            if p >= n {
                                assert(l@[i] != '=');
                            } else if i < p {
                            } else if i > p {
                                assert(l@.take(i)[p as int] == '=');
                            } else {
                                assert(l@.skip(i + 1)[q - i - 1] == '=');
                            }
                        }
                    }
                    assert(info_fields(ls, j + 1) is None);
                    lemma_info_stays_none(ls, j + 1, lines@.len() as int);
                }
                return Err(ArkhamError::CorruptVersionInfo(String::from_str("Invalid format in Version file")));
            }
            let mut key: Vec<char> = Vec::new();
            let mut value: Vec<char> = Vec::new();
            let mut t: usize = 0;
            while t < n
                invariant
                    p < n == l@.len(),
                    t <= n,
                    key@ == l@.take(if t < p { t as int } else { p as int }),
                    value@ == if t <= p { Seq::<char>::empty() } else { l@.subrange(p + 1, t as int) },
                decreases n - t,
            {
                if t < p {
                    key.push(l[t]);
                    assert(key@ =~= l@.take(t + 1));
                } else if t > p {
                    value.push(l[t]);
                    assert(value@ =~= l@.subrange(p + 1, t + 1));
                }
                t += 1;
            }
            proof {
                assert(l@.subrange(p + 1, n as int) =~= l@.skip(p + 1));
                assert(eq_split_ok(l@, p as int)) by {
                    assert forall|i: int| 0 <= i < l@.skip(p + 1).len() implies #[trigger] l@.skip(p + 1)[i] != '=' by {
                        assert(l@.skip(p + 1)[i] == l@[p + 1 + i]);
                    }
                }
                let c = choose|i: int| eq_split_ok(l@, i);
                if c < p {
                    assert(l@[c] != '=');
                } else if c > p {
                    assert(l@.take(c)[p as int] == '=');
                }
            }
            if same_chars(&key, &k_name) {
                name = value;
            } else if same_chars(&key, &k_version) {
                version = value;
            } else if same_chars(&key, &k_root) {
                root = value;
            }
            j += 1;
        }
        if name.len() == 0 || version.len() == 0 {
            return Err(ArkhamError::CorruptVersionInfo(
                String::from_str("Invalid Version info please check: .version.info"),
            ));
        }
        Ok(ProjectInfo::new(string_of(&name), string_of(&version), string_of(&root)))
    }
}

proof fn lemma_info_stays_none(lines: Seq<Seq<char>>, from: int, to: int)
    requires
        from <= to,
        info_fields(lines, from) is None,
        from >= 1,
    ensures
        info_fields(lines, to) is None,
    decreases to - from,
{
    if from < to {
        lemma_info_stays_none(lines, from, to - 1);
    }
}

} // verus!
