use vstd::prelude::*;

use vstd::string::StringSliceAdditionalSpecFns;

use crate::change::{paths_view, DealFile};
use crate::path::{render, PathModel, PathName};

verus! {

pub const TAB: u8 = 9;

pub const NEWLINE: u8 = 10;

pub const COMMA: u8 = 44;

/// One line per path: a tab, the path, a comma.
pub open spec fn entry_lines(paths: Seq<PathModel>) -> Seq<u8>
    decreases paths.len(),
{
    if paths.len() == 0 {
        Seq::empty()
    } else {
        entry_lines(paths.drop_last()) + seq![TAB] + render(paths.last()) + seq![COMMA, NEWLINE]
    }
}

/// `NAME : [`, then the entries on lines of their own where there are any, then `]`.
pub open spec fn listing(name: Seq<u8>, paths: Seq<PathModel>) -> Seq<u8> {
    name + seq![32u8, 58u8, 32u8, 91u8] + (if paths.len() > 0 {
        seq![NEWLINE] + entry_lines(paths)
    } else {
        Seq::empty()
    }) + seq![93u8, NEWLINE]
}

fn append_bytes(out: &mut Vec<u8>, src: &[u8])
    ensures
        final(out)@ == old(out)@ + src@,
{
    let mut i: usize = 0;
    while i < src.len()
        invariant
            0 <= i <= src.len(),
            out@ =~= old(out)@ + src@.subrange(0, i as int),
        decreases src.len() - i,
    {
        out.push(src[i]);
        i += 1;
    }
    assert(src@.subrange(0, src@.len() as int) =~= src@);
}

/// Writes the listing of `list` under the heading `list_name` at the end of `out`.
pub fn fmt_write(out: &mut Vec<u8>, list_name: &str, list: &Vec<PathName>)
    ensures
        final(out)@ == old(out)@ + listing(list_name.spec_bytes(), paths_view(list@)),
{
    let ghost start = out@;
    append_bytes(out, list_name.as_bytes());
    out.push(32u8);
    out.push(58u8);
    out.push(32u8);
    out.push(91u8);
    let ghost head = out@;
    assert(head =~= start + list_name.spec_bytes() + seq![32u8, 58u8, 32u8, 91u8]);
    if list.len() != 0 {
        out.push(NEWLINE);
        let ghost body = out@;
        let mut i: usize = 0;
        while i < list.len()
            invariant
                0 <= i <= list.len(),
                body == head + seq![NEWLINE],
                out@ =~= body + entry_lines(paths_view(list@).subrange(0, i as int)),
            decreases list.len() - i,
        {
            let ghost sub = paths_view(list@).subrange(0, i + 1);
            assert(sub.drop_last() =~= paths_view(list@).subrange(0, i as int));
            assert(sub.last() == list@[i as int]@);
            out.push(TAB);
            let text = list[i].to_bytes();
            append_bytes(out, text.as_slice());
            out.push(COMMA);
            out.push(NEWLINE);
            i += 1;
        }
        assert(paths_view(list@).subrange(0, list.len() as int) =~= paths_view(list@));
    }
    out.push(93u8);
    out.push(NEWLINE);
}

impl DealFile {
    /// The three lists, each under its heading: changed, deleted, others.
    pub fn describe(&self) -> (r: Vec<u8>)
        ensures
            r@ == listing("CHANGED".spec_bytes(), self.changed_view()) + listing(
                "DELETED".spec_bytes(),
                self.deleted_view(),
            ) + listing("OTHERS".spec_bytes(), self.others_view()),
    {
        let mut out: Vec<u8> = Vec::new();
        fmt_write(&mut out, "CHANGED", &self.changed);
        fmt_write(&mut out, "DELETED", &self.deleted);
        fmt_write(&mut out, "OTHERS", &self.others);
        out
    }
}

} // verus!
