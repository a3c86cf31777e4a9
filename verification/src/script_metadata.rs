//! The inline metadata block of a Python script (`# /// script` ...
//! `# ///`).
use vstd::prelude::*;
use crate::error::OmcRegistryError;
use crate::requirements::{lines, text_lines};
use crate::text::{
    chars_of, concat_chars, eq_chars, seqs_of, slice_of, starts_with, starts_with_chars,
    string_from_chars, suffix_from,
};

verus! {

/// Where a scan of the script's lines stands: inside a block (with its text
/// so far) or not, the block found so far, and whether a second block was
/// found.
pub struct ScriptScan {
    pub in_block: bool,
    pub block: Seq<char>,
    pub found: Option<Seq<char>>,
    pub failed: bool,
}

/// One line of the scan.  Inside a block, `# text` adds `text` and a line
/// break, `#` adds a line break, `# ///` closes the block, and any other
/// line drops the block.  Outside, `# /// script` opens a block.
pub open spec fn script_step(s: ScriptScan, line: Seq<char>) -> ScriptScan {
    if s.failed {
        s
    } else if !s.in_block {
        if line == "# /// script"@ {
            ScriptScan { in_block: true, block: Seq::empty(), ..s }
        } else {
            s
        }
    } else if line == "# ///"@ {
        if s.found is Some {
            ScriptScan { failed: true, in_block: false, ..s }
        } else {
            ScriptScan { in_block: false, found: Some(s.block), ..s }
        }
    } else if starts_with(line, "# "@) {
        ScriptScan { block: s.block + line.skip(2) + "\n"@, ..s }
    } else if line == "#"@ {
        ScriptScan { block: s.block + "\n"@, ..s }
    } else {
        ScriptScan { in_block: false, ..s }
    }
}

/// The scan over lines in order.
pub open spec fn script_scan(ls: Seq<Seq<char>>) -> ScriptScan
    decreases ls.len(),
{
    if ls.len() == 0 {
        ScriptScan { in_block: false, block: Seq::empty(), found: None, failed: false }
    } else {
        script_step(script_scan(ls.drop_last()), ls.last())
    }
}

proof fn lemma_failed_persists(all: Seq<Seq<char>>, k: int)
    requires
        0 <= k <= all.len(),
        script_scan(all.take(k)).failed,
    ensures
        script_scan(all).failed,
    decreases all.len() - k,
{
    if k == all.len() {
        assert(all.take(k) =~= all);
    } else {
        assert(all.take(k + 1).drop_last() =~= all.take(k));
        lemma_failed_persists(all, k + 1);
    }
}

/// The message when a script holds two metadata blocks.
pub open spec fn multiple_blocks_message() -> Seq<char> {
    "multiple inline script metadata blocks found"@
}

/// The text of the script's inline metadata block, if it has one closed
/// block; refused when it has two or more.
pub fn inline_script_metadata(content: &str) -> (r: Result<Option<String>, OmcRegistryError>)
    ensures
        ({
            let s = script_scan(lines(content@));
            if s.failed {
                r matches Err(OmcRegistryError::UnsupportedRequirement(m)) && m@ == multiple_blocks_message()
            } else {
                r matches Ok(found) && match found {
                    Some(b) => s.found == Some(b@),
                    None => s.found is None,
                }
            }
        }),
{
    let text = chars_of(content);
    let ls = text_lines(text.as_slice());
    let open = chars_of("# /// script");
    let close = chars_of("# ///");
    let hash_space = chars_of("# ");
    let hash = chars_of("#");
    let newline = chars_of("\n");
    proof {
        reveal_strlit("# ");
    }
    let ghost all = seqs_of(ls@);
    let mut in_block = false;
    let mut block: Vec<char> = Vec::new();
    let mut found: Option<Vec<char>> = None;
    let mut i: usize = 0;
    while i < ls.len()
        invariant
            all == seqs_of(ls@),
            all == lines(content@),
            open@ == "# /// script"@,
            close@ == "# ///"@,
            hash_space@ == "# "@,
            hash_space@.len() == 2,
            hash@ == "#"@,
            newline@ == "\n"@,
            i <= ls@.len(),
            ({
                let s = script_scan(all.take(i as int));
                &&& !s.failed
                &&& s.in_block == in_block
                &&& s.block == block@
                &&& match found {
                    Some(b) => s.found == Some(b@),
                    None => s.found is None,
                }
            }),
        decreases ls.len() - i,
    {
        let line = &ls[i];
        proof {
            assert(all.take(i + 1).drop_last() =~= all.take(i as int));
            assert(all.take(i + 1).last() == line@);
        }
        if !in_block {
            if eq_chars(line.as_slice(), open.as_slice()) {
                in_block = true;
                block = Vec::new();
            }
        } else if eq_chars(line.as_slice(), close.as_slice()) {
            if found.is_some() {
                proof {
                    assert(script_scan(all.take(i + 1)).failed);
                    lemma_failed_persists(all, i + 1);
                }
                return Err(
                    OmcRegistryError::UnsupportedRequirement(
                        string_from_chars(chars_of("multiple inline script metadata blocks found").as_slice()),
                    ),
                );
            }
            in_block = false;
            found = Some(slice_of(block.as_slice(), 0, block.len()));
            assert(found->0@ =~= block@);
        } else if starts_with_chars(line.as_slice(), hash_space.as_slice()) {
            let rest = suffix_from(line.as_slice(), 2);
            let with_rest = concat_chars(block.as_slice(), rest.as_slice());
            block = concat_chars(with_rest.as_slice(), newline.as_slice());
        } else if eq_chars(line.as_slice(), hash.as_slice()) {
            block = concat_chars(block.as_slice(), newline.as_slice());
        } else {
            in_block = false;
        }
        i = i + 1;
    }
    assert(all.take(ls@.len() as int) =~= all);
    match found {
        Some(b) => Ok(Some(string_from_chars(b.as_slice()))),
        None => Ok(None),
    }
}

} // verus!
