//! Parsing `.wsconfig`-style files: `#` comments, `[section]` headers,
//! and key/value lines split at the first `:` (or `->`), with optional
//! quotes around either side.

use crate::ascii::{find_byte, spec_find, spec_lines, spec_trim, split_lines, trim};
use crate::config_error::{Error, ErrorKind};
use crate::headers::Headers;
use vstd::prelude::*;
use vstd::slice::{slice_subrange, slice_to_vec};

verus! {

/// Strip one matching pair of quotes, if the text both starts and ends
/// with the same quote character.
pub open spec fn spec_remove_quotes(s: Seq<u8>) -> Seq<u8> {
    if s.len() >= 2 && (s[0] == 39 || s[0] == 34) && s.last() == s[0] {
        s.subrange(1, s.len() - 1)
    } else {
        s
    }
}

/// Remove one pair of quotes from a string, if present.
pub fn remove_quotes(data: &[u8]) -> (r: Vec<u8>)
    ensures
        r@ == spec_remove_quotes(data@),
{
    if data.len() >= 2 {
        let c = data[0];
        if (c == 39 || c == 34) && data[data.len() - 1] == c {
            return slice_to_vec(slice_subrange(data, 1, data.len() - 1));
        }
    }
    slice_to_vec(data)
}

/// Everything before the first `#` of a line.
pub open spec fn spec_strip_comment(line: Seq<u8>) -> Seq<u8> {
    let i = spec_find(line, 35);
    if i < 0 || i >= line.len() {
        line
    } else {
        line.take(i)
    }
}

pub(crate) fn strip_comment(line: &[u8]) -> (r: &[u8])
    ensures
        r@ == spec_strip_comment(line@),
{
    match find_byte(line, 35) {
        None => line,
        Some(i) => slice_subrange(line, 0, i),
    }
}

/// Index of the first `->` in `s`, or `-1`.
pub open spec fn spec_find_arrow(s: Seq<u8>) -> int
    decreases s.len(),
{
    if s.len() < 2 {
        -1
    } else if s[0] == 45 && s[1] == 62 {
        0
    } else {
        let r = spec_find_arrow(s.drop_first());
        if r < 0 {
            -1
        } else {
            1 + r
        }
    }
}

proof fn lemma_find_arrow_at(s: Seq<u8>, i: int)
    requires
        0 <= i,
        i + 2 <= s.len(),
        s[i] == 45,
        s[i + 1] == 62,
        forall|j: int| 0 <= j < i ==> !((#[trigger] s[j]) == 45 && s[j + 1] == 62),
    ensures
        spec_find_arrow(s) == i,
    decreases s.len(),
{
    if i > 0 {
        assert forall|j: int| 0 <= j < i - 1 implies !((#[trigger] s.drop_first()[j]) == 45
            && s.drop_first()[j + 1] == 62) by {
            assert(s.drop_first()[j] == s[j + 1] && s.drop_first()[j + 1] == s[j + 2]);
        }
        lemma_find_arrow_at(s.drop_first(), i - 1);
    }
}

proof fn lemma_find_arrow_none(s: Seq<u8>)
    requires
        forall|j: int| 0 <= j && j + 2 <= s.len() ==> !((#[trigger] s[j]) == 45 && s[j + 1] == 62),
    ensures
        spec_find_arrow(s) == -1,
    decreases s.len(),
{
    if s.len() >= 2 {
        assert forall|j: int| 0 <= j && j + 2 <= s.drop_first().len() implies !((
        #[trigger] s.drop_first()[j]) == 45 && s.drop_first()[j + 1] == 62) by {
            assert(s.drop_first()[j] == s[j + 1] && s.drop_first()[j + 1] == s[j + 2]);
        }
        lemma_find_arrow_none(s.drop_first());
    }
}

pub(crate) fn find_arrow(s: &[u8]) -> (r: Option<usize>)
    ensures
        match r {
            Some(i) => spec_find_arrow(s@) == i && i + 2 <= s@.len(),
            None => spec_find_arrow(s@) == -1,
        },
{
    if s.len() < 2 {
        proof {
            lemma_find_arrow_none(s@);
        }
        return None;
    }
    let mut i: usize = 0;
    while i <= s.len() - 2
        invariant
            s@.len() >= 2,
            i <= s@.len() - 1,
            forall|j: int| 0 <= j < i ==> !((#[trigger] s@[j]) == 45 && s@[j + 1] == 62),
        decreases s.len() - i,
    {
        if s[i] == 45 && s[i + 1] == 62 {
            proof {
                lemma_find_arrow_at(s@, i as int);
            }
            return Some(i);
        }
        i = i + 1;
    }
    proof {
        lemma_find_arrow_none(s@);
    }
    None
}

/// The key/value pair a config line denotes: split at the first `:`,
/// else at the first `->`, else the whole line with an empty value;
/// both sides are trimmed and unquoted.
pub open spec fn spec_config_pair(l: Seq<u8>) -> (Seq<u8>, Seq<u8>) {
    let c = spec_find(l, 58);
    if 0 <= c < l.len() {
        (spec_remove_quotes(spec_trim(l.take(c))), spec_remove_quotes(spec_trim(l.skip(c + 1))))
    } else {
        let a = spec_find_arrow(l);
        if 0 <= a && a + 2 <= l.len() {
            (
                spec_remove_quotes(spec_trim(l.take(a))),
                spec_remove_quotes(spec_trim(l.skip(a + 2))),
            )
        } else {
            (spec_remove_quotes(spec_trim(l)), Seq::<u8>::empty())
        }
    }
}

/// One parsed section: its name and its key/value map.
#[derive(Debug)]
pub struct ConfigSection {
    pub name: Vec<u8>,
    pub keys: Headers,
}

/// Accumulates one section while its lines are read.
#[derive(Debug)]
pub struct SectionBuilder(pub ConfigSection);

impl SectionBuilder {
    pub fn new(name: Vec<u8>) -> (r: SectionBuilder)
        ensures
            r.0.name == name,
            r.0.keys.wf(),
            r.0.keys.as_map() == Map::<Seq<u8>, Seq<u8>>::empty(),
    {
        SectionBuilder(ConfigSection { name, keys: Headers::new() })
    }

    pub fn add_keypair(&mut self, key: Vec<u8>, value: Vec<u8>)
        requires
            old(self).0.keys.wf(),
        ensures
            final(self).0.name == old(self).0.name,
            final(self).0.keys.wf(),
            final(self).0.keys.as_map() == old(self).0.keys.as_map().insert(key@, value@),
    {
        self.0.keys.insert(key, value);
    }

    pub fn build(self) -> (r: ConfigSection)
        ensures
            r == self.0,
    {
        self.0
    }
}

/// What one section is in the abstract: its name and key map.
pub open spec fn section_model(s: ConfigSection) -> (Seq<u8>, Map<Seq<u8>, Seq<u8>>) {
    (s.name@, s.keys.as_map())
}

/// The sections a run of config lines denotes, carried left to right
/// with the sections read so far and the section being filled; a
/// key/value line before any section header refuses the file.
pub open spec fn spec_cfg_lines(
    acc: Seq<(Seq<u8>, Map<Seq<u8>, Seq<u8>>)>,
    cur: Option<(Seq<u8>, Map<Seq<u8>, Seq<u8>>)>,
    lines: Seq<Seq<u8>>,
) -> Option<Seq<(Seq<u8>, Map<Seq<u8>, Seq<u8>>)>>
    decreases lines.len(),
{
    if lines.len() == 0 {
        Some(
            match cur {
                None => acc,
                Some(c) => acc.push(c),
            },
        )
    } else {
        let l = spec_strip_comment(lines[0]);
        if l.len() >= 2 && l[0] == 91 && l.last() == 93 {
            spec_cfg_lines(
                match cur {
                    None => acc,
                    Some(c) => acc.push(c),
                },
                Some((l.subrange(1, l.len() - 1), Map::<Seq<u8>, Seq<u8>>::empty())),
                lines.drop_first(),
            )
        } else if l.len() == 0 {
            spec_cfg_lines(acc, cur, lines.drop_first())
        } else {
            match cur {
                None => None,
                Some((n, m)) => spec_cfg_lines(
                    acc,
                    Some((n, m.insert(spec_config_pair(l).0, spec_config_pair(l).1))),
                    lines.drop_first(),
                ),
            }
        }
    }
}

/// What a whole config text denotes: its sections in order, or nothing
/// when a key/value line stands outside every section.
pub open spec fn spec_parse_source(src: Seq<u8>) -> Option<
    Seq<(Seq<u8>, Map<Seq<u8>, Seq<u8>>)>,
> {
    spec_cfg_lines(
        Seq::<(Seq<u8>, Map<Seq<u8>, Seq<u8>>)>::empty(),
        None,
        spec_lines(src),
    )
}

/// A parsed configuration file: its sections in order.
#[derive(Debug)]
pub struct ConfigFile(pub Vec<ConfigSection>);

impl ConfigFile {
    /// The sections as the spec sees them.
    pub open spec fn sections_model(&self) -> Seq<(Seq<u8>, Map<Seq<u8>, Seq<u8>>)> {
        self.0@.map_values(|s: ConfigSection| section_model(s))
    }

    /// Every section's key map is well-formed.
    pub open spec fn wf(&self) -> bool {
        forall|i: int| 0 <= i < self.0@.len() ==> (#[trigger] self.0@[i]).keys.wf()
    }

    /// The parsed sections, in file order.
    pub fn sections(&self) -> (r: &[ConfigSection])
        ensures
            r@ == self.0@,
    {
        self.0.as_slice()
    }

    /// Parse a config text into sections.
    pub fn parse_source(source: &[u8]) -> (r: Result<ConfigFile, Error>)
        ensures
            r is Ok <==> spec_parse_source(source@) is Some,
            r is Ok ==> r->Ok_0.wf() && r->Ok_0.sections_model() == spec_parse_source(source@)->0,
            r is Err ==> r->Err_0.kind == ErrorKind::InvalidKey,
    {
        let lines = split_lines(source);
        let ghost lv = lines@.map_values(|v: Vec<u8>| v@);
        let mut acc: Vec<ConfigSection> = Vec::new();
        let mut cur: Option<SectionBuilder> = None;
        let ghost target = spec_parse_source(source@);
        let mut i: usize = 0;
        proof {
            assert(acc@.map_values(|s: ConfigSection| section_model(s)) =~~= Seq::<
                (Seq<u8>, Map<Seq<u8>, Seq<u8>>),
            >::empty());
            assert(lv.skip(0) =~~= lv);
        }
        while i < lines.len()
            invariant
                i <= lines.len(),
                lv == lines@.map_values(|v: Vec<u8>| v@),
                target == spec_parse_source(source@),
                forall|k: int| 0 <= k < acc@.len() ==> (#[trigger] acc@[k]).keys.wf(),
                match cur {
                    Some(b) => b.0.keys.wf(),
                    None => true,
                },
                target == spec_cfg_lines(
                    acc@.map_values(|s: ConfigSection| section_model(s)),
                    match cur {
                        None => None,
                        Some(b) => Some(section_model(b.0)),
                    },
                    lv.skip(i as int),
                ),
            decreases lines.len() - i,
        {
            let ghost acc0 = acc@.map_values(|s: ConfigSection| section_model(s));
            proof {
                assert(lv.skip(i as int)[0] == lv[i as int]);
                assert(lv.skip(i as int).drop_first() =~~= lv.skip(i as int + 1));
            }
            let l = strip_comment(lines[i].as_slice());
            if l.len() >= 2 && l[0] == 91 && l[l.len() - 1] == 93 {
                match cur.take() {
                    Some(b) => {
                        acc.push(b.build());
                        proof {
                            assert(acc@.map_values(|s: ConfigSection| section_model(s)) =~~= acc0.push(
                                section_model(acc@.last()),
                            ));
                        }
                    },
                    None => {},
                }
                let name = slice_to_vec(slice_subrange(l, 1, l.len() - 1));
                cur = Some(SectionBuilder::new(name));
            } else if l.len() == 0 {
            } else {
                match &mut cur {
                    None => {
                        return Err(
                            Error::new(
                                ErrorKind::InvalidKey,
                                "Expected section, found key instead",
                            ),
                        );
                    },
                    Some(b) => {
                        let (key, value) = match find_byte(l, 58) {
                            Some(c) => {
                                let n = l.len();
                                assert(c < n);
                                let left = remove_quotes(trim(slice_subrange(l, 0, c)).as_slice());
                                let right = remove_quotes(
                                    trim(slice_subrange(l, c + 1, n)).as_slice(),
                                );
                                (left, right)
                            },
                            None => {
                                match find_arrow(l) {
                                    Some(a) => {
                                        let left = remove_quotes(
                                            trim(slice_subrange(l, 0, a)).as_slice(),
                                        );
                                        let right = remove_quotes(
                                            trim(slice_subrange(l, a + 2, l.len())).as_slice(),
                                        );
                                        (left, right)
                                    },
                                    None => {
                                        let left = remove_quotes(trim(l).as_slice());
                                        (left, Vec::new())
                                    },
                                }
                            },
                        };
                        assert((key@, value@) == spec_config_pair(l@));
                        b.add_keypair(key, value);
                    },
                }
            }
            i = i + 1;
        }
        proof {
            assert(lv.skip(lines@.len() as int) =~~= Seq::<Seq<u8>>::empty());
        }
        let file = match cur.take() {
            Some(b) => {
                let ghost acc0 = acc@.map_values(|s: ConfigSection| section_model(s));
                acc.push(b.build());
                proof {
                    assert(acc@.map_values(|s: ConfigSection| section_model(s)) =~~= acc0.push(
                        section_model(acc@.last()),
                    ));
                }
                ConfigFile(acc)
            },
            None => ConfigFile(acc),
        };
        Ok(file)
    }
}

} // verus!
