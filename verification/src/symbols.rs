//! The assembler's symbol table: label names mapped to instruction
//! addresses, and the line ranges of the code and data sections.
//!
//! The table is an association list in insertion order with unique names;
//! section ranges are pairs of optional line indices, the start being the
//! line of the `.section` declaration itself and the end the line of the
//! next declaration (or the line count, once the table is closed).

use vstd::prelude::*;
use crate::errors::LineError;

verus! {

/// The two source sections.
#[derive(Clone, Copy, PartialEq, Eq, Structural, Debug)]
pub enum Section {
    Code,
    Data,
}

/// Symbol table and section line ranges.
#[derive(PartialEq, Debug)]
pub struct Symbols {
    pub labels: Vec<(String, u16)>,
    pub code_section: (Option<usize>, Option<usize>),
    pub data_section: (Option<usize>, Option<usize>),
}

/// A ghost mirror of `Symbols`, over which the first pass is specified.
#[verifier::ext_equal]
pub struct SymModel {
    pub labels: Seq<(Seq<char>, u16)>,
    pub code: (Option<int>, Option<int>),
    pub data: (Option<int>, Option<int>),
}

/// Model of one optional line index.
pub open spec fn bmodel(b: Option<usize>) -> Option<int> {
    match b {
        Some(x) => Some(x as int),
        None => None,
    }
}

/// The model of a concrete symbol table.
pub open spec fn smodel(s: Symbols) -> SymModel {
    SymModel {
        labels: s.labels.deep_view(),
        code: (bmodel(s.code_section.0), bmodel(s.code_section.1)),
        data: (bmodel(s.data_section.0), bmodel(s.data_section.1)),
    }
}

/// The address bound to the first occurrence of a name in the table.
pub open spec fn tbl_lookup(t: Seq<(Seq<char>, u16)>, k: Seq<char>) -> Option<u16>
    decreases t.len(),
{
    if t.len() == 0 {
        None
    } else if t[0].0 == k {
        Some(t[0].1)
    } else {
        tbl_lookup(t.drop_first(), k)
    }
}

/// A half-open range out of a section's bounds, present only once both
/// bounds are.
pub open spec fn spec_range(sec: (Option<int>, Option<int>)) -> Option<(int, int)> {
    match sec {
        (Some(s), Some(e)) => Some((s, e)),
        _ => None,
    }
}

/// The section bounds after one `.section` declaration at the given line:
/// the first declaration opens its own section; a later one opens its own
/// section and closes the other at the same line.
pub open spec fn spec_update_sections(
    cs: (Option<int>, Option<int>),
    ds: (Option<int>, Option<int>),
    s: Section,
    line: int,
) -> ((Option<int>, Option<int>), (Option<int>, Option<int>)) {
    let neither = cs == (None::<int>, None::<int>) && ds == (None::<int>, None::<int>);
    match s {
        Section::Code => if neither {
            ((Some(line), cs.1), ds)
        } else {
            ((Some(line), cs.1), (ds.0, Some(line)))
        },
        Section::Data => if neither {
            (cs, (Some(line), ds.1))
        } else {
            ((cs.0, Some(line)), (Some(line), ds.1))
        },
    }
}

/// The section bounds after the walk over all lines ends at `n` lines:
/// the still-open section is closed at `n`. A data-only program and a
/// program with no sections at all are rejected here.
pub open spec fn spec_close_sections(
    cs: (Option<int>, Option<int>),
    ds: (Option<int>, Option<int>),
    n: int,
) -> Result<((Option<int>, Option<int>), (Option<int>, Option<int>)), LineError> {
    match (cs, ds) {
        ((Some(a), Some(x)), (Some(y), None)) => if x == y {
            Ok(((Some(a), Some(x)), (Some(y), Some(n))))
        } else {
            Ok((cs, ds))
        },
        ((Some(x), None), (Some(b), Some(y))) => if x == y {
            Ok(((Some(x), Some(n)), (Some(b), Some(y))))
        } else {
            Ok((cs, ds))
        },
        ((Some(x), None), (None, None)) => Ok(((Some(x), Some(n)), (None, None))),
        ((None, None), (Some(_), None)) => Err(LineError::OnlyDataSection),
        ((None, None), (None, None)) => Err(LineError::NoSectionDecl),
        _ => Ok((cs, ds)),
    }
}

impl Symbols {
    /// An empty table with no section declared.
    pub fn new() -> (r: Symbols)
        ensures
            smodel(r).labels =~= Seq::<(Seq<char>, u16)>::empty(),
            smodel(r).code == (None::<int>, None::<int>),
            smodel(r).data == (None::<int>, None::<int>),
    {
        Symbols { labels: Vec::new(), code_section: (None, None), data_section: (None, None) }
    }

    /// The code section's line range, present once both bounds are known.
    pub fn code_range(&self) -> (r: Option<(usize, usize)>)
        ensures
            match spec_range(smodel(*self).code) {
                Some((s, e)) => r is Some && r->Some_0.0 == s && r->Some_0.1 == e,
                None => r is None,
            },
    {
        match self.code_section {
            (Some(s), Some(e)) => Some((s, e)),
            _ => None,
        }
    }

    /// The data section's line range, present once both bounds are known.
    pub fn data_range(&self) -> (r: Option<(usize, usize)>)
        ensures
            match spec_range(smodel(*self).data) {
                Some((s, e)) => r is Some && r->Some_0.0 == s && r->Some_0.1 == e,
                None => r is None,
            },
    {
        match self.data_section {
            (Some(s), Some(e)) => Some((s, e)),
            _ => None,
        }
    }

    /// Records one `.section` declaration found at the given line.
    pub fn update_sections(&mut self, s: Section, line: usize)
        ensures
            ({
                let (cs, ds) = spec_update_sections(
                    smodel(*old(self)).code,
                    smodel(*old(self)).data,
                    s,
                    line as int,
                );
                smodel(*final(self)).code == cs && smodel(*final(self)).data == ds
            }),
            final(self).labels == old(self).labels,
    {
        let neither = self.code_section.0.is_none() && self.code_section.1.is_none()
            && self.data_section.0.is_none() && self.data_section.1.is_none();
        match s {
            Section::Code => {
                if neither {
                    self.code_section.0 = Some(line);
                } else {
                    self.code_section.0 = Some(line);
                    self.data_section.1 = Some(line);
                }
            },
            Section::Data => {
                if neither {
                    self.data_section.0 = Some(line);
                } else {
                    self.data_section.0 = Some(line);
                    self.code_section.1 = Some(line);
                }
            },
        }
    }

    /// Closes the still-open section at the line count and checks that a
    /// code section was declared at all.
    pub fn check_sections_valid(&mut self, line_num: usize) -> (r: Result<(), LineError>)
        ensures
            ({
                match spec_close_sections(
                    smodel(*old(self)).code,
                    smodel(*old(self)).data,
                    line_num as int,
                ) {
                    Ok((cs, ds)) => r is Ok && smodel(*final(self)).code == cs && smodel(
                        *final(self),
                    ).data == ds,
                    Err(e) => r == Err::<(), LineError>(e) && *final(self) == *old(self),
                }
            }),
            final(self).labels == old(self).labels,
    {
        match (self.code_section, self.data_section) {
            ((Some(_), Some(x)), (Some(y), None)) if x == y => {
                self.data_section.1 = Some(line_num);
                Ok(())
            },
            ((Some(x), None), (Some(_), Some(y))) if x == y => {
                self.code_section.1 = Some(line_num);
                Ok(())
            },
            ((Some(_), None), (None, None)) => {
                self.code_section.1 = Some(line_num);
                Ok(())
            },
            ((None, None), (Some(_), None)) => Err(LineError::OnlyDataSection),
            ((None, None), (None, None)) => Err(LineError::NoSectionDecl),
            _ => Ok(()),
        }
    }

    /// Looks a label name up in the table.
    pub fn lookup(&self, name: &String) -> (r: Option<u16>)
        ensures
            r == tbl_lookup(smodel(*self).labels, name@),
    {
        proof {
            assert(self.labels.deep_view().skip(0) =~= self.labels.deep_view());
        }
        lookup_from(&self.labels, name, 0)
    }

    /// Binds a name to an address; reports (and changes nothing on) a
    /// duplicate name.
    pub fn insert_label(&mut self, name: String, addr: u16) -> (dup: bool)
        ensures
            dup == (tbl_lookup(smodel(*old(self)).labels, name@) is Some),
            dup ==> *final(self) == *old(self),
            !dup ==> smodel(*final(self)).labels =~= smodel(*old(self)).labels.push(
                (name@, addr),
            ) && final(self).code_section == old(self).code_section && final(self).data_section
                == old(self).data_section,
    {
        proof {
            assert(self.labels.deep_view().skip(0) =~= self.labels.deep_view());
        }
        if lookup_from(&self.labels, &name, 0).is_some() {
            true
        } else {
            self.labels.push((name, addr));
            false
        }
    }
}

fn lookup_from(labels: &Vec<(String, u16)>, name: &String, i: usize) -> (r: Option<u16>)
    requires
        i <= labels@.len(),
    ensures
        r == tbl_lookup(labels.deep_view().skip(i as int), name@),
    decreases labels@.len() - i,
{
    if i == labels.len() {
        proof {
            assert(labels.deep_view().skip(i as int).len() == 0);
        }
        None
    } else {
        proof {
            let ii = i as int;
            assert(labels.deep_view().skip(ii)[0] == (labels@[ii].0@, labels@[ii].1));
            assert(labels.deep_view().skip(i as int).drop_first() =~= labels.deep_view().skip(
                i as int + 1,
            ));
        }
        if labels[i].0 == *name {
            Some(labels[i].1)
        } else {
            lookup_from(labels, name, i + 1)
        }
    }
}

} // verus!
