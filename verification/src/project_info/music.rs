//! Tag rules for music-production projects: audio formats by extension and
//! DAW products by file-name substring.

use vstd::prelude::*;

use crate::text::{
    char_views, chars_eq, chars_of_str, contains_chars, contains_seq, extension_of,
    extension_of_chars, seq_lower, str_views, to_char_lists, to_lower, to_strings,
};

verus! {

/// The upper-cased format tag for an audio or DAW-project extension (ASCII
/// case-insensitive), if the extension is recognized.
pub open spec fn audio_tag_of_extension(e: Seq<char>) -> Option<Seq<char>> {
    let l = seq_lower(e);
    if l == "wav"@ {
        Some("WAV"@)
    } else if l == "mp3"@ {
        Some("MP3"@)
    } else if l == "flac"@ {
        Some("FLAC"@)
    } else if l == "ogg"@ {
        Some("OGG"@)
    } else if l == "aiff"@ {
        Some("AIFF"@)
    } else if l == "rpp"@ {
        Some("RPP"@)
    } else if l == "flp"@ {
        Some("FLP"@)
    } else if l == "logic"@ {
        Some("LOGIC"@)
    } else if l == "studioone"@ {
        Some("STUDIOONE"@)
    } else {
        None
    }
}

/// The format tags seen across a listing's extensions.
pub open spec fn audio_tag_set(names: Seq<Seq<char>>) -> Set<Seq<char>>
    decreases names.len(),
{
    if names.len() == 0 {
        Set::empty()
    } else {
        let rest = audio_tag_set(names.drop_last());
        match extension_of(names.last()) {
            Some(e) => match audio_tag_of_extension(e) {
                Some(t) => rest.insert(t),
                None => rest,
            },
            None => rest,
        }
    }
}

/// The display names of the DAW products whose name occurs (ASCII
/// case-insensitively) inside the given file name.
pub open spec fn daw_tags_of_name(name: Seq<char>) -> Set<Seq<char>> {
    let l = seq_lower(name);
    let s0 = Set::<Seq<char>>::empty();
    let s1 = if contains_seq(l, "ableton live"@) {
        s0.insert("Ableton Live"@)
    } else {
        s0
    };
    let s2 = if contains_seq(l, "fl studio"@) {
        s1.insert("FL Studio"@)
    } else {
        s1
    };
    let s3 = if contains_seq(l, "logic pro"@) {
        s2.insert("Logic Pro"@)
    } else {
        s2
    };
    let s4 = if contains_seq(l, "reaper"@) {
        s3.insert("Reaper"@)
    } else {
        s3
    };
    if contains_seq(l, "presonus studio one"@) {
        s4.insert("Presonus Studio One"@)
    } else {
        s4
    }
}

/// The DAW tags seen across a listing's file names.
pub open spec fn daw_tag_set(names: Seq<Seq<char>>) -> Set<Seq<char>>
    decreases names.len(),
{
    if names.len() == 0 {
        Set::empty()
    } else {
        daw_tag_set(names.drop_last()).union(daw_tags_of_name(names.last()))
    }
}

/// The full music tag set: format tags, DAW tags, and the two fixed tags.
pub open spec fn music_tag_set(names: Seq<Seq<char>>) -> Set<Seq<char>> {
    audio_tag_set(names).union(daw_tag_set(names)).insert("audio"@).insert("production"@)
}

/// Decides `audio_tag_of_extension`.
pub fn audio_tag_of_extension_chars(e: &Vec<char>) -> (r: Option<Vec<char>>)
    ensures
        r is Some <==> audio_tag_of_extension(e@) is Some,
        r matches Some(t) ==> audio_tag_of_extension(e@) == Some(t@),
{
    let l = to_lower(e);
    if chars_eq(&l, &chars_of_str("wav")) {
        Some(chars_of_str("WAV"))
    } else if chars_eq(&l, &chars_of_str("mp3")) {
        Some(chars_of_str("MP3"))
    } else if chars_eq(&l, &chars_of_str("flac")) {
        Some(chars_of_str("FLAC"))
    } else if chars_eq(&l, &chars_of_str("ogg")) {
        Some(chars_of_str("OGG"))
    } else if chars_eq(&l, &chars_of_str("aiff")) {
        Some(chars_of_str("AIFF"))
    } else if chars_eq(&l, &chars_of_str("rpp")) {
        Some(chars_of_str("RPP"))
    } else if chars_eq(&l, &chars_of_str("flp")) {
        Some(chars_of_str("FLP"))
    } else if chars_eq(&l, &chars_of_str("logic")) {
        Some(chars_of_str("LOGIC"))
    } else if chars_eq(&l, &chars_of_str("studioone")) {
        Some(chars_of_str("STUDIOONE"))
    } else {
        None
    }
}

/// Tags for a music listing, as `music_tag_set` describes them; duplicates
/// may occur and are the caller's to remove.
pub fn generate_music_tags(entries: &Vec<String>) -> (tags: Vec<String>)
    ensures
        str_views(tags@).to_set() == music_tag_set(str_views(entries@)),
{
    let names = to_char_lists(entries);
    let ghost gn = str_views(entries@);
    let mut out: Vec<Vec<char>> = Vec::new();
    let mut i: usize = 0;
    while i < names.len()
        invariant
            i <= names.len(),
            char_views(names@) == gn,
            names@.len() == gn.len(),
            char_views(out@).to_set() =~= audio_tag_set(gn.take(i as int)).union(
                daw_tag_set(gn.take(i as int)),
            ),
        decreases names.len() - i,
    {
        proof {
            assert(gn[i as int] == names@[i as int]@);
            assert(gn.take(i + 1).drop_last() =~= gn.take(i as int));
            assert(gn.take(i + 1).last() == gn[i as int]);
        }
        match extension_of_chars(&names[i]) {
            Some(e) => {
                match audio_tag_of_extension_chars(&e) {
                    Some(t) => {
                        proof {
                            crate::text::lemma_to_set_push(char_views(out@), t@);
                            assert(char_views(out@.push(t)) =~= char_views(out@).push(t@));
                        }
                        out.push(t);
                    },
                    None => {},
                }
            },
            None => {},
        }
        let lname = to_lower(&names[i]);
        if contains_chars(&lname, &chars_of_str("ableton live")) {
            let t = chars_of_str("Ableton Live");
            proof {
                crate::text::lemma_to_set_push(char_views(out@), t@);
                assert(char_views(out@.push(t)) =~= char_views(out@).push(t@));
            }
            out.push(t);
        }
        if contains_chars(&lname, &chars_of_str("fl studio")) {
            let t = chars_of_str("FL Studio");
            proof {
                crate::text::lemma_to_set_push(char_views(out@), t@);
                assert(char_views(out@.push(t)) =~= char_views(out@).push(t@));
            }
            out.push(t);
        }
        if contains_chars(&lname, &chars_of_str("logic pro")) {
            let t = chars_of_str("Logic Pro");
            proof {
                crate::text::lemma_to_set_push(char_views(out@), t@);
                assert(char_views(out@.push(t)) =~= char_views(out@).push(t@));
            }
            out.push(t);
        }
        if contains_chars(&lname, &chars_of_str("reaper")) {
            let t = chars_of_str("Reaper");
            proof {
                crate::text::lemma_to_set_push(char_views(out@), t@);
                assert(char_views(out@.push(t)) =~= char_views(out@).push(t@));
            }
            out.push(t);
        }
        if contains_chars(&lname, &chars_of_str("presonus studio one")) {
            let t = chars_of_str("Presonus Studio One");
            proof {
                crate::text::lemma_to_set_push(char_views(out@), t@);
                assert(char_views(out@.push(t)) =~= char_views(out@).push(t@));
            }
            out.push(t);
        }
        proof {
            assert(char_views(out@).to_set() =~= audio_tag_set(gn.take(i + 1)).union(
                daw_tag_set(gn.take(i + 1)),
            ));
        }
        i += 1;
    }
    proof {
        assert(gn.take(gn.len() as int) =~= gn);
    }
    let t1 = chars_of_str("audio");
    proof {
        crate::text::lemma_to_set_push(char_views(out@), t1@);
        assert(char_views(out@.push(t1)) =~= char_views(out@).push(t1@));
    }
    out.push(t1);
    let t2 = chars_of_str("production");
    proof {
        crate::text::lemma_to_set_push(char_views(out@), t2@);
        assert(char_views(out@.push(t2)) =~= char_views(out@).push(t2@));
    }
    out.push(t2);
    let tags = to_strings(&out);
    tags
}

/// Every music listing's tag set holds the two fixed tags.
pub proof fn lemma_music_fixed_tags(names: Seq<Seq<char>>)
    ensures
        music_tag_set(names).contains("audio"@),
        music_tag_set(names).contains("production"@),
{
}

} // verus!
