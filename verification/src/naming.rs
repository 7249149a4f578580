//! Output path computation: mirrored folder structure + optional tag and signature.
use vstd::prelude::*;
use crate::models::{EncodeSettings, NamingSettings};
use crate::path::{
    components, file_stem, file_stem_of, is_component, push_all, push_component,
    push_component_exec, rel_dir, rel_dir_of, split_slash,
};
use crate::text::{
    chars_of, dec, matches_at, push_chars, starts_with, string_of, trim, trim_end, trim_vec,
    u64_to_string,
};

verus! {

/// Characters that cannot appear in a file name on the supported systems.
pub open spec fn is_illegal(c: char) -> bool {
    c == '/' || c == '\\' || c == ':' || c == '*' || c == '?' || c == '"' || c == '<' || c
        == '>' || c == '|'
}

/// `char::is_control`: the C0 and C1 control characters.
pub open spec fn is_control(c: char) -> bool {
    c <= '\u{1f}' || ('\u{7f}' <= c && c <= '\u{9f}')
}

/// A character kept by `sanitize`.
pub open spec fn name_safe(c: char) -> bool {
    !is_illegal(c) && !is_control(c)
}

/// The characters of `s` that are allowed in a file name, in order.
pub open spec fn sanitize_spec(s: Seq<char>) -> Seq<char>
    decreases s.len(),
{
    if s.len() == 0 {
        s
    } else {
        let r = sanitize_spec(s.drop_last());
        if name_safe(s.last()) {
            r.push(s.last())
        } else {
            r
        }
    }
}

fn name_safe_exec(c: char) -> (r: bool)
    ensures
        r == name_safe(c),
{
    !(c == '/' || c == '\\' || c == ':' || c == '*' || c == '?' || c == '"' || c == '<' || c == '>'
        || c == '|') && !(c <= '\u{1f}' || ('\u{7f}' <= c && c <= '\u{9f}'))
}

fn sanitize_vec(s: &[char]) -> (r: Vec<char>)
    ensures
        r@ == sanitize_spec(s@),
{
    let mut r: Vec<char> = Vec::new();
    let mut i: usize = 0;
    while i < s.len()
        invariant
            i <= s@.len(),
            r@ == sanitize_spec(s@.take(i as int)),
        decreases s@.len() - i,
    {
        proof {
            assert(s@.take(i + 1).drop_last() =~= s@.take(i as int));
        }
        if name_safe_exec(s[i]) {
            r.push(s[i]);
        }
        i = i + 1;
    }
    assert(s@.take(s@.len() as int) =~= s@);
    r
}

/// Removes the characters that are not allowed in file names.
pub fn sanitize(s: &str) -> (r: String)
    ensures
        r@ == sanitize_spec(s@),
{
    let v = chars_of(s);
    string_of(&sanitize_vec(&v))
}

/// Law: sanitized text holds only characters allowed in file names, keeps every
/// allowed character, and sanitizing twice changes nothing.
pub proof fn law_sanitize(s: Seq<char>)
    ensures
        forall|i: int| 0 <= i < sanitize_spec(s).len() ==> name_safe(#[trigger] sanitize_spec(s)[i]),
        sanitize_spec(sanitize_spec(s)) == sanitize_spec(s),
        (forall|i: int| 0 <= i < s.len() ==> name_safe(#[trigger] s[i])) ==> sanitize_spec(s) == s,
    decreases s.len(),
{
    if s.len() > 0 {
        law_sanitize(s.drop_last());
        let r = sanitize_spec(s.drop_last());
        if name_safe(s.last()) {
            assert(r.push(s.last()).drop_last() =~= r);
        }
        if forall|i: int| 0 <= i < s.len() ==> name_safe(#[trigger] s[i]) {
            assert forall|i: int| 0 <= i < s.drop_last().len() implies name_safe(
                #[trigger] s.drop_last()[i],
            ) by {
                assert(s.drop_last()[i] == s[i]);
            }
            assert(name_safe(s[s.len() - 1]));
            assert(s.drop_last().push(s.last()) =~= s);
        }
    }
}

// ---------------------------------------------------------------- replacing placeholders

pub(crate) fn replace_vec(s: &[char], pat: &[char], rep: &[char]) -> (r: Vec<char>)
    requires
        pat@.len() > 0,
    ensures
        r@ == crate::text::replace_all(s@, pat@, rep@),
{
    let mut r: Vec<char> = Vec::new();
    let mut i: usize = 0;
    proof {
        assert(s@.skip(0) =~= s@);
    }
    while i < s.len()
        invariant
            i <= s@.len(),
            pat@.len() > 0,
            crate::text::replace_all(s@, pat@, rep@) == r@ + crate::text::replace_all(
                s@.skip(i as int),
                pat@,
                rep@,
            ),
        decreases s@.len() - i,
    {
        let ghost rest = s@.skip(i as int);
        if matches_at(s, i, pat) {
            proof {
                assert(rest.take(pat@.len() as int) =~= s@.subrange(i as int, i + pat@.len()));
                assert(starts_with(rest, pat@));
                assert(rest.skip(pat@.len() as int) =~= s@.skip(i + pat@.len()));
            }
            let mut k: usize = 0;
            let ghost before = r@;
            while k < rep.len()
                invariant
                    k <= rep@.len(),
                    r@ == before + rep@.take(k as int),
                decreases rep@.len() - k,
            {
                r.push(rep[k]);
                assert(rep@.take(k + 1) =~= rep@.take(k as int).push(rep@[k as int]));
                k = k + 1;
            }
            assert(rep@.take(rep@.len() as int) =~= rep@);
            i = i + pat.len();
        } else {
            proof {
                if pat@.len() <= rest.len() {
                    assert(rest.take(pat@.len() as int) =~= s@.subrange(i as int, i + pat@.len()));
                }
                assert(!starts_with(rest, pat@));
                assert(rest.skip(1) =~= s@.skip(i + 1));
                assert(rest[0] == s@[i as int]);
            }
            r.push(s[i]);
            i = i + 1;
        }
    }
    proof {
        assert(s@.skip(i as int) =~= Seq::<char>::empty());
        assert(r@ + Seq::<char>::empty() =~= r@);
    }
    r
}

/// The "{res}" placeholder: "480p", or "src" when the height is unknown.
pub open spec fn res_label(out_h: u32) -> Seq<char> {
    if out_h > 0 {
        dec(out_h as nat) + seq!['p']
    } else {
        "src"@
    }
}

/// The tag: the template with "{res}", "{codec}" and "{crf}" filled in, sanitized.
pub open spec fn render_tag_spec(template: Seq<char>, s: EncodeSettings, out_h: u32) -> Seq<char> {
    sanitize_spec(
        crate::text::replace_all(
            crate::text::replace_all(
                crate::text::replace_all(template, "{res}"@, res_label(out_h)),
                "{codec}"@,
                s.codec.label_spec(),
            ),
            "{crf}"@,
            dec(s.effective_crf_spec() as nat),
        ),
    )
}

/// Fills in the tag template.
pub fn render_tag(template: &str, settings: &EncodeSettings, out_h: u32) -> (r: String)
    ensures
        r@ == render_tag_spec(template@, *settings, out_h),
{
    let res: String = if out_h > 0 {
        let mut x = u64_to_string(out_h as u64);
        crate::text::push_char(&mut x, 'p');
        x
    } else {
        "src".to_owned()
    };
    let t = chars_of(template);
    let p1 = chars_of("{res}");
    let p2 = chars_of("{codec}");
    let p3 = chars_of("{crf}");
    proof {
        reveal_strlit("{res}");
        reveal_strlit("{codec}");
        reveal_strlit("{crf}");
    }
    assert(res@ == res_label(out_h));
    let r1 = replace_vec(&t, &p1, &chars_of(res.as_str()));
    assert(r1@ == crate::text::replace_all(template@, "{res}"@, res_label(out_h)));
    let r2 = replace_vec(&r1, &p2, &chars_of(settings.codec.label()));
    let crf = u64_to_string(settings.effective_crf() as u64);
    let r3 = replace_vec(&r2, &p3, &chars_of(crf.as_str()));
    let out = string_of(&sanitize_vec(&r3));
    assert(out@ == render_tag_spec(template@, *settings, out_h));
    out
}

// ---------------------------------------------------------------- file names and paths

/// The source's stem, or "output" when it has none.
pub open spec fn stem_or_default(source: Seq<char>) -> Seq<char> {
    match file_stem(source) {
        Some(s) => s,
        None => "output"@,
    }
}

/// The output file name: stem, optional " <tag>", optional signature, then ".<ext>".
pub open spec fn output_file_name_spec(
    source: Seq<char>,
    s: EncodeSettings,
    naming: NamingSettings,
    out_h: u32,
) -> Seq<char> {
    let stem = stem_or_default(source);
    let tag = trim(render_tag_spec(naming.tag_template@, s, out_h));
    let with_tag = if naming.add_tag && tag.len() > 0 {
        stem + seq![' '] + tag
    } else {
        stem
    };
    let name = if naming.add_signature {
        with_tag + sanitize_spec(naming.signature@)
    } else {
        with_tag
    };
    trim_end(name) + seq!['.'] + s.container.ext_spec()
}

pub fn output_file_name(source: &str, settings: &EncodeSettings, naming: &NamingSettings, out_h: u32) -> (r: String)
    ensures
        r@ == output_file_name_spec(source@, *settings, *naming, out_h),
{
    let src = chars_of(source);
    let mut name: Vec<char> = match file_stem_of(&src) {
        Some(s) => s,
        None => chars_of("output"),
    };
    if naming.add_tag {
        let tag = render_tag(naming.tag_template.as_str(), settings, out_h);
        let tv = trim_vec(&chars_of(tag.as_str()));
        if tv.len() > 0 {
            name.push(' ');
            let mut k: usize = 0;
            let ghost before = name@;
            while k < tv.len()
                invariant
                    k <= tv@.len(),
                    name@ == before + tv@.take(k as int),
                decreases tv@.len() - k,
            {
                name.push(tv[k]);
                assert(tv@.take(k + 1) =~= tv@.take(k as int).push(tv@[k as int]));
                k = k + 1;
            }
            assert(tv@.take(tv@.len() as int) =~= tv@);
        }
    }
    if naming.add_signature {
        let sig = sanitize_vec(&chars_of(naming.signature.as_str()));
        let mut k: usize = 0;
        let ghost before = name@;
        while k < sig.len()
            invariant
                k <= sig@.len(),
                name@ == before + sig@.take(k as int),
            decreases sig@.len() - k,
        {
            name.push(sig[k]);
            assert(sig@.take(k + 1) =~= sig@.take(k as int).push(sig@[k as int]));
            k = k + 1;
        }
        assert(sig@.take(sig@.len() as int) =~= sig@);
    }
    proof {
        let stem = stem_or_default(source@);
        let tag = trim(render_tag_spec(naming.tag_template@, *settings, out_h));
        let with_tag = if naming.add_tag && tag.len() > 0 {
            stem + seq![' '] + tag
        } else {
            stem
        };
        let nm = if naming.add_signature {
            with_tag + sanitize_spec(naming.signature@)
        } else {
            with_tag
        };
        assert(name@ =~= nm);
    }
    let trimmed = trim_end_vec(&name);
    let mut out = string_of(&trimmed);
    crate::text::push_char(&mut out, '.');
    out.append(settings.container.ext());
    proof {
        if naming.add_tag {
            assert(trim(render_tag_spec(naming.tag_template@, *settings, out_h)) == trim(
                render_tag_spec(naming.tag_template@, *settings, out_h),
            ));
        }
    }
    assert(out@ =~= output_file_name_spec(source@, *settings, *naming, out_h));
    out
}

fn trim_end_vec(s: &[char]) -> (r: Vec<char>)
    ensures
        r@ == trim_end(s@),
{
    let mut b: usize = s.len();
    while b > 0 && crate::text::is_ws_exec(s[b - 1])
        invariant
            b <= s@.len(),
            forall|j: int| b <= j < s@.len() ==> crate::text::is_ws(#[trigger] s@[j]),
        decreases b,
    {
        b = b - 1;
    }
    proof {
        lemma_ws_suffix(s@, (s@.len() - b) as nat);
    }
    crate::path::slice_to(s, b)
}

proof fn lemma_ws_suffix(s: Seq<char>, k: nat)
    requires
        k <= s.len(),
        forall|j: int| s.len() - k <= j < s.len() ==> crate::text::is_ws(#[trigger] s[j]),
        k < s.len() ==> !crate::text::is_ws(s[s.len() - k - 1]),
    ensures
        crate::text::ws_suffix_len(s) == k,
    decreases s.len(),
{
    if k > 0 {
        let t = s.drop_last();
        assert forall|j: int| t.len() - (k - 1) <= j < t.len() implies crate::text::is_ws(
            #[trigger] t[j],
        ) by {
            assert(t[j] == s[j]);
        }
        if k < s.len() {
            assert(t[t.len() - (k - 1) - 1] == s[s.len() - k - 1]);
        }
        lemma_ws_suffix(t, (k - 1) as nat);
    } else {
        if s.len() > 0 {
            assert(!crate::text::is_ws(s.last()));
        }
    }
}

/// The full output path: under `output_dir`, the source's folder relative to `root`
/// (when preserving structure and the source lies under `root`), then the file name.
pub open spec fn output_path_spec(
    source: Seq<char>,
    root: Seq<char>,
    output_dir: Seq<char>,
    preserve_structure: bool,
    s: EncodeSettings,
    naming: NamingSettings,
    out_h: u32,
) -> Seq<char> {
    let file = output_file_name_spec(source, s, naming, out_h);
    let rel = if preserve_structure {
        match rel_dir(source, root) {
            Some(r) => r,
            None => Seq::<Seq<char>>::empty(),
        }
    } else {
        Seq::<Seq<char>>::empty()
    };
    push_component(push_all(output_dir, rel), file)
}

/// Full output path. `root` is the folder the source was added from; when preserving
/// structure the source's path relative to root is mirrored under `output_dir`.
pub fn output_path(
    source: &str,
    root: &str,
    output_dir: &str,
    preserve_structure: bool,
    settings: &EncodeSettings,
    naming: &NamingSettings,
    out_h: u32,
) -> (r: String)
    ensures
        r@ == output_path_spec(
            source@,
            root@,
            output_dir@,
            preserve_structure,
            *settings,
            *naming,
            out_h,
        ),
{
    let file = output_file_name(source, settings, naming, out_h);
    let src = chars_of(source);
    let rt = chars_of(root);
    let rel: Vec<Vec<char>> = if preserve_structure {
        match rel_dir_of(&src, &rt) {
            Some(r) => r,
            None => Vec::new(),
        }
    } else {
        Vec::new()
    };
    let ghost relv = rel@.map_values(|x: Vec<char>| x@);
    proof {
        if !preserve_structure || rel_dir(source@, root@) is None {
            assert(relv =~= Seq::<Seq<char>>::empty());
        }
    }
    let mut buf = chars_of(output_dir);
    let mut i: usize = 0;
    while i < rel.len()
        invariant
            i <= rel@.len(),
            relv == rel@.map_values(|x: Vec<char>| x@),
            buf@ == push_all(output_dir@, relv.take(i as int)),
        decreases rel@.len() - i,
    {
        proof {
            assert(relv.take(i + 1).drop_last() =~= relv.take(i as int));
            assert(relv.take(i + 1).last() == rel@[i as int]@);
        }
        push_component_exec(&mut buf, &rel[i]);
        i = i + 1;
    }
    assert(relv.take(rel@.len() as int) =~= relv);
    push_component_exec(&mut buf, &chars_of(file.as_str()));
    string_of(&buf)
}

} // verus!
