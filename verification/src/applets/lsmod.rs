//! lsmod: the table it makes of `/proc/modules`.
use vstd::prelude::*;
use crate::num::{pad_left, pad_left_exec, pad_right, pad_right_exec};
use crate::text::{
    chars_of, eq_lit, lines, lines_exec, push_all, push_str, replace_exec, replace_text,
    string_of, trim_char_end, trim_char_end_exec, views, vviews, words, words_exec,
};

verus! {

/// The header line.
pub open spec fn header_spec() -> Seq<char> {
    pad_right("Module"@, 28) + " "@ + pad_left("Size"@, 8, ' ') + "  Used by"@
}

/// The line for a module line of at least three fields (name, size, use
/// count, users): the users without their trailing commas and with `, `
/// between them, left out where there are none or they are `-`.
pub open spec fn module_line(w: Seq<Seq<char>>) -> Seq<char> {
    let used_by = if w.len() >= 4 {
        replace_text(trim_char_end(w[3], ','), ","@, ", "@)
    } else {
        seq![]
    };
    let head = pad_right(w[0], 28) + " "@ + pad_left(w[1], 8, ' ') + "  "@ + w[2];
    if used_by.len() == 0 || used_by == "-"@ {
        head
    } else {
        head + " "@ + used_by
    }
}

/// The lines for the modules, in order; lines of fewer than three fields
/// are left out.
pub open spec fn module_lines(ls: Seq<Seq<char>>) -> Seq<Seq<char>>
    decreases ls.len(),
{
    if ls.len() == 0 {
        seq![]
    } else if words(ls.last()).len() >= 3 {
        module_lines(ls.drop_last()).push(module_line(words(ls.last())))
    } else {
        module_lines(ls.drop_last())
    }
}

/// The table lsmod prints for the text of `/proc/modules`.
pub fn table(content: &str) -> (r: Vec<String>)
    ensures
        views(r@) == seq![header_spec()] + module_lines(lines(content@)),
{
    let mut h = pad_right_exec(chars_of("Module").as_slice(), 28);
    push_str(&mut h, " ");
    push_all(&mut h, pad_left_exec(chars_of("Size").as_slice(), 8, ' ').as_slice());
    push_str(&mut h, "  Used by");
    let mut r: Vec<String> = Vec::new();
    r.push(string_of(h.as_slice()));
    let ls = lines_exec(chars_of(content).as_slice());
    let ghost lv = vviews(ls@);
    let mut i: usize = 0;
    assert(views(r@) =~= seq![header_spec()] + module_lines(lv.take(0)));
    while i < ls.len()
        invariant
            i <= ls@.len(),
            lv == vviews(ls@),
            lv == lines(content@),
            views(r@) == seq![header_spec()] + module_lines(lv.take(i as int)),
        decreases ls@.len() - i,
    {
        assert(lv[i as int] == ls@[i as int]@);
        assert(lv.take(i + 1).drop_last() =~= lv.take(i as int));
        let w = words_exec(ls[i].as_slice());
        let ghost wv = vviews(w@);
        if w.len() >= 3 {
            assert(wv[0] == w@[0]@ && wv[1] == w@[1]@ && wv[2] == w@[2]@);
            let used_by = if w.len() >= 4 {
                assert(wv[3] == w@[3]@);
                let t = trim_char_end_exec(w[3].as_slice(), ',');
                replace_exec(t.as_slice(), ",", ", ")
            } else {
                Vec::new()
            };
            let mut l = pad_right_exec(w[0].as_slice(), 28);
            push_str(&mut l, " ");
            push_all(&mut l, pad_left_exec(w[1].as_slice(), 8, ' ').as_slice());
            push_str(&mut l, "  ");
            push_all(&mut l, w[2].as_slice());
            if !(used_by.len() == 0 || eq_lit(used_by.as_slice(), "-")) {
                push_str(&mut l, " ");
                push_all(&mut l, used_by.as_slice());
            }
            assert(l@ =~= module_line(wv));
            let ghost before = views(r@);
            r.push(string_of(l.as_slice()));
            assert(views(r@) =~= before.push(l@));
        }
        i = i + 1;
    }
    assert(lv.take(ls@.len() as int) =~= lv);
    r
}

} // verus!
