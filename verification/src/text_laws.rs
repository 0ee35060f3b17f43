//! What holds of the texts that are written and read: URLs, keys, numbers and
//! requests.

use crate::handshake::is_header_text;
use crate::json::{request_document, JsonView};
use crate::models::{
    is_hex_digit, is_request_text, normalized_id, with_time_unit, ConfigurationWebsocketStreams,
    StreamIdView, TimeUnit,
};
use crate::streams::{key_of, stream_url};
use crate::text::{
    after_separator, decimal, first_separator, has_separator, has_suffix, joined, separator_at,
};
use vstd::prelude::*;

verus! {

/// The pieces of a text between the marks in it.
pub open spec fn pieces(text: Seq<char>, mark: char) -> Seq<Seq<char>>
    decreases text.len(),
{
    if text.len() == 0 {
        seq![Seq::<char>::empty()]
    } else {
        let front = pieces(text.drop_last(), mark);
        if text.last() == mark {
            front.push(Seq::<char>::empty())
        } else {
            front.drop_last().push(front.last().push(text.last()))
        }
    }
}

proof fn lemma_pieces_extend(text: Seq<char>, more: Seq<char>, mark: char)
    requires
        !more.contains(mark),
    ensures
        pieces(text, mark).len() > 0,
        pieces(text + more, mark) == pieces(text, mark).drop_last().push(
            pieces(text, mark).last() + more,
        ),
    decreases more.len(),
{
    lemma_pieces_exist(text, mark);
    if more.len() == 0 {
        assert(text + more =~= text);
        assert(pieces(text, mark).last() + more =~= pieces(text, mark).last());
        assert(pieces(text, mark) =~= pieces(text, mark).drop_last().push(
            pieces(text, mark).last() + more,
        ));
    } else {
        let less = more.drop_last();
        assert(!less.contains(mark)) by {
            if less.contains(mark) {
                let i = choose|i: int| 0 <= i < less.len() && less[i] == mark;
                assert(more[i] == mark);
            }
        }
        lemma_pieces_extend(text, less, mark);
        assert((text + more).drop_last() =~= text + less);
        assert((text + more).last() == more.last());
        assert(more[more.len() - 1] != mark);
        let front = pieces(text + less, mark);
        assert(front.last().push(more.last()) =~= pieces(text, mark).last() + more);
        assert(front.drop_last() =~= pieces(text, mark).drop_last());
    }
}

proof fn lemma_pieces_exist(text: Seq<char>, mark: char)
    ensures
        pieces(text, mark).len() > 0,
    decreases text.len(),
{
    if text.len() > 0 {
        lemma_pieces_exist(text.drop_last(), mark);
    }
}

/// Joining and taking apart are inverse: a text that names were joined to by a
/// slash falls apart at the slashes into exactly those names, in order.
pub proof fn law_joined_falls_apart(parts: Seq<Seq<char>>)
    requires
        parts.len() > 0,
        forall|i: int| 0 <= i < parts.len() ==> !(#[trigger] parts[i]).contains('/'),
    ensures
        pieces(joined(parts, "/"@), '/') == parts,
    decreases parts.len(),
{
    reveal_strlit("/");
    assert("/"@ =~= seq!['/']);
    let empty = Seq::<char>::empty();
    if parts.len() == 1 {
        assert(!parts[0].contains('/'));
        lemma_pieces_extend(empty, parts[0], '/');
        assert(empty + parts[0] =~= parts[0]);
        assert(pieces(empty, '/') =~= seq![empty]);
        assert(pieces(empty, '/').last() + parts[0] =~= parts[0]);
        assert(pieces(parts[0], '/') =~= parts);
    } else {
        let rest = parts.drop_last();
        assert forall|i: int| 0 <= i < rest.len() implies !(#[trigger] rest[i]).contains('/') by {
            assert(!parts[i].contains('/'));
        }
        law_joined_falls_apart(rest);
        let front = joined(rest, "/"@);
        let marked = front.push('/');
        assert(front + "/"@ =~= marked);
        assert(marked.drop_last() =~= front);
        assert(pieces(marked, '/') == rest.push(empty));
        assert(!parts[parts.len() - 1].contains('/'));
        lemma_pieces_extend(marked, parts.last(), '/');
        assert(rest.push(empty).drop_last() =~= rest);
        assert(empty + parts.last() =~= parts.last());
        assert(rest.push(parts.last()) =~= parts);
    }
}

/// Joining is done piece by piece, whatever the pieces hold: nothing is joined
/// to nothing, one piece to itself, and two lists by joining each and putting
/// the separator between them.
pub proof fn law_joined_piece_by_piece(
    left: Seq<Seq<char>>,
    right: Seq<Seq<char>>,
    part: Seq<char>,
    separator: Seq<char>,
)
    requires
        left.len() > 0,
        right.len() > 0,
    ensures
        joined(Seq::<Seq<char>>::empty(), separator).len() == 0,
        joined(seq![part], separator) == part,
        joined(left + right, separator) == joined(left, separator) + separator + joined(
            right,
            separator,
        ),
    decreases right.len(),
{
    if right.len() == 1 {
        assert((left + right).drop_last() =~= left);
        assert((left + right).last() == right[0]);
    } else {
        law_joined_piece_by_piece(left, right.drop_last(), part, separator);
        assert((left + right).drop_last() =~= left + right.drop_last());
        assert((left + right).last() == right.last());
        assert(joined(left + right, separator) =~= joined(left, separator) + separator + joined(
            right,
            separator,
        ));
    }
}

/// A time unit is a parameter of the query: it opens the query of a URL that has
/// none and joins that of one that has. Without a unit the URL stays as it is.
pub proof fn law_time_unit_in_url(url: Seq<char>, time_unit: Option<TimeUnit>)
    ensures
        time_unit is None ==> with_time_unit(url, time_unit) == url,
        time_unit == Some(TimeUnit::Millisecond) && url.contains('?') ==> with_time_unit(
            url,
            time_unit,
        ) == url + "&timeUnit=millisecond"@,
        time_unit == Some(TimeUnit::Millisecond) && !url.contains('?') ==> with_time_unit(
            url,
            time_unit,
        ) == url + "?timeUnit=millisecond"@,
        time_unit == Some(TimeUnit::Microsecond) && url.contains('?') ==> with_time_unit(
            url,
            time_unit,
        ) == url + "&timeUnit=microsecond"@,
        time_unit == Some(TimeUnit::Microsecond) && !url.contains('?') ==> with_time_unit(
            url,
            time_unit,
        ) == url + "?timeUnit=microsecond"@,
{
    reveal_strlit("&");
    reveal_strlit("?");
    reveal_strlit("timeUnit=");
    reveal_strlit("millisecond");
    reveal_strlit("microsecond");
    reveal_strlit("&timeUnit=millisecond");
    reveal_strlit("?timeUnit=millisecond");
    reveal_strlit("&timeUnit=microsecond");
    reveal_strlit("?timeUnit=microsecond");
    assert("&"@ + "timeUnit="@ + "millisecond"@ =~= "&timeUnit=millisecond"@);
    assert("?"@ + "timeUnit="@ + "millisecond"@ =~= "?timeUnit=millisecond"@);
    assert("&"@ + "timeUnit="@ + "microsecond"@ =~= "&timeUnit=microsecond"@);
    assert("?"@ + "timeUnit="@ + "microsecond"@ =~= "?timeUnit=microsecond"@);
    if let Some(unit) = time_unit {
        let sep = if url.contains('?') {
            "&"@
        } else {
            "?"@
        };
        assert(with_time_unit(url, time_unit) =~= url + (sep + "timeUnit="@ + unit.spelled()));
    }
}

/// The URL of streams names every stream: what stands in it behind the base, the
/// path where there is one and `/stream?streams=`, and before the time unit where
/// there is one, falls apart at the slashes into exactly the given streams, in
/// order, however many there are.
pub proof fn law_url_names_every_stream(
    configuration: ConfigurationWebsocketStreams,
    streams: Seq<Seq<char>>,
    url_path: Option<Seq<char>>,
)
    requires
        streams.len() > 0,
        forall|i: int| 0 <= i < streams.len() ==> !(#[trigger] streams[i]).contains('/'),
    ensures
        ({
            let url = stream_url(configuration, streams, url_path);
            let base = match configuration.ws_url {
                Some(base) => base@,
                None => Seq::<char>::empty(),
            };
            let root = match url_path {
                Some(path) => base + "/"@ + path,
                None => base,
            };
            let head = root + "/stream?streams="@;
            let tail = match configuration.time_unit {
                None => Seq::<char>::empty(),
                Some(TimeUnit::Millisecond) => "&timeUnit=millisecond"@,
                Some(TimeUnit::Microsecond) => "&timeUnit=microsecond"@,
            };
            &&& head.len() + tail.len() <= url.len()
            &&& url.take(head.len() as int) == head
            &&& url.skip(url.len() - tail.len()) == tail
            &&& pieces(url.subrange(head.len() as int, url.len() - tail.len()), '/') == streams
        }),
{
    law_url_of_joined_streams(configuration, streams, url_path);
    law_joined_falls_apart(streams);
    let url = stream_url(configuration, streams, url_path);
    let base = match configuration.ws_url {
        Some(base) => base@,
        None => Seq::<char>::empty(),
    };
    let root = match url_path {
        Some(path) => base + "/"@ + path,
        None => base,
    };
    let head = root + "/stream?streams="@;
    let tail = match configuration.time_unit {
        None => Seq::<char>::empty(),
        Some(TimeUnit::Millisecond) => "&timeUnit=millisecond"@,
        Some(TimeUnit::Microsecond) => "&timeUnit=microsecond"@,
    };
    let body = joined(streams, "/"@);
    assert(url == head + body + tail);
    assert(url.take(head.len() as int) =~= head);
    assert(url.skip(url.len() - tail.len()) =~= tail);
    assert(url.subrange(head.len() as int, url.len() - tail.len()) =~= body);
}

/// The URL of streams is the base, the path where there is one,
/// `/stream?streams=`, the streams joined by slashes and the time unit where
/// there is one, whatever the streams hold.
pub proof fn law_url_of_joined_streams(
    configuration: ConfigurationWebsocketStreams,
    streams: Seq<Seq<char>>,
    url_path: Option<Seq<char>>,
)
    ensures
        ({
            let base = match configuration.ws_url {
                Some(base) => base@,
                None => Seq::<char>::empty(),
            };
            let root = match url_path {
                Some(path) => base + "/"@ + path,
                None => base,
            };
            let tail = match configuration.time_unit {
                None => Seq::<char>::empty(),
                Some(TimeUnit::Millisecond) => "&timeUnit=millisecond"@,
                Some(TimeUnit::Microsecond) => "&timeUnit=microsecond"@,
            };
            stream_url(configuration, streams, url_path) == root + "/stream?streams="@ + joined(
                streams,
                "/"@,
            ) + tail
        }),
{
    let base = match configuration.ws_url {
        Some(base) => base@,
        None => Seq::<char>::empty(),
    };
    let root = match url_path {
        Some(path) => base + "/"@ + path,
        None => base,
    };
    let plain = root + "/stream?streams="@ + joined(streams, "/"@);
    reveal_strlit("/stream?streams=");
    assert(plain[root.len() as int + 7] == '?');
    assert(plain.contains('?'));
    law_time_unit_in_url(plain, configuration.time_unit);
    assert(plain + Seq::<char>::empty() =~= plain);
}

/// The key of a stream is its name, behind its path and `::` where it has a path
/// that is not empty.
pub proof fn law_key(stream: Seq<char>, url_path: Option<Seq<char>>)
    ensures
        url_path is None ==> key_of(stream, url_path) == stream,
        url_path is Some && url_path->0.len() == 0 ==> key_of(stream, url_path) == stream,
        url_path is Some && url_path->0.len() > 0 ==> key_of(stream, url_path) == url_path->0
            + "::"@ + stream,
{
}

/// On one path no two streams have the same key.
pub proof fn law_key_tells_streams_apart(
    left: Seq<char>,
    right: Seq<char>,
    url_path: Option<Seq<char>>,
)
    requires
        key_of(left, url_path) == key_of(right, url_path),
    ensures
        left == right,
{
    if url_path is Some && url_path->0.len() > 0 {
        let head = url_path->0 + "::"@;
        assert(key_of(left, url_path).skip(head.len() as int) =~= left);
        assert(key_of(right, url_path).skip(head.len() as int) =~= right);
    }
}

/// What follows the first pair of colons in a text is what stands behind it; a
/// text without one stays whole.
pub proof fn law_after_colons(text: Seq<char>, i: int)
    ensures
        0 <= i && i + 1 < text.len() && text[i] == ':' && text[i + 1] == ':' && (forall|j: int|
            0 <= j < i ==> !(#[trigger] text[j] == ':' && text[j + 1] == ':')) ==> after_separator(
            text,
        ) == text.skip(i + 2),
        (forall|j: int|
            0 <= j < text.len() - 1 ==> !(#[trigger] text[j] == ':' && text[j + 1] == ':'))
            ==> after_separator(text) == text,
{
    if 0 <= i && i + 1 < text.len() && text[i] == ':' && text[i + 1] == ':' && (forall|j: int|
        0 <= j < i ==> !(#[trigger] text[j] == ':' && text[j + 1] == ':')) {
        assert(separator_at(text, i));
        assert forall|j: int| #![trigger separator_at(text, j)] 0 <= j < i implies !separator_at(text, j) by {
            assert(!(text[j] == ':' && text[j + 1] == ':'));
        }
        assert(first_separator(text, i));
        let chosen = choose|k: int| first_separator(text, k);
        assert(first_separator(text, chosen));
        if chosen < i {
            assert(!separator_at(text, chosen));
        } else if i < chosen {
            assert(!separator_at(text, i));
        }
    }
    if forall|j: int|
        0 <= j < text.len() - 1 ==> !(#[trigger] text[j] == ':' && text[j + 1] == ':') {
        assert forall|j: int| !#[trigger] separator_at(text, j) by {
            if separator_at(text, j) {
                assert(!(text[j] == ':' && text[j + 1] == ':'));
            }
        }
        assert(!has_separator(text));
    }
}

/// A text ends with another exactly where it is some text followed by it.
pub proof fn law_suffix(text: Seq<char>, suffix: Seq<char>)
    ensures
        has_suffix(text, suffix) <==> exists|front: Seq<char>| text == #[trigger] (front + suffix),
{
    if has_suffix(text, suffix) {
        let front = text.take(text.len() - suffix.len());
        assert(text =~= front + suffix);
    }
    if exists|front: Seq<char>| text == #[trigger] (front + suffix) {
        let front = choose|front: Seq<char>| text == #[trigger] (front + suffix);
        assert(text.subrange(text.len() - suffix.len(), text.len() as int) =~= suffix);
    }
}

/// The number that a text of decimal digits stands for.
pub open spec fn number_of(text: Seq<char>) -> int
    decreases text.len(),
{
    if text.len() == 0 {
        0
    } else {
        10 * number_of(text.drop_last()) + (text.last() as int - '0' as int)
    }
}

/// A number in decimal reads back as the number, in digits, without leading
/// zeros.
pub proof fn law_decimal_reads_back(n: nat)
    ensures
        number_of(decimal(n)) == n,
        decimal(n).len() > 0,
        forall|i: int|
            0 <= i < decimal(n).len() ==> '0' <= #[trigger] decimal(n)[i] && decimal(n)[i] <= '9',
        n > 0 ==> decimal(n)[0] != '0',
    decreases n,
{
    reveal_with_fuel(number_of, 2);
    if n < 10 {
        assert(decimal(n).drop_last() =~= Seq::<char>::empty());
    } else {
        law_decimal_reads_back(n / 10);
        assert(decimal(n).drop_last() =~= decimal(n / 10));
        assert(decimal(n)[0] == decimal(n / 10)[0]);
        assert forall|i: int| 0 <= i < decimal(n).len() implies '0' <= #[trigger] decimal(n)[i]
            && decimal(n)[i] <= '9' by {
            if i < decimal(n / 10).len() {
                assert(decimal(n)[i] == decimal(n / 10)[i]);
            }
        }
    }
}

/// A request is an object of exactly its method, its parameters, in order, and
/// its identifier.
pub proof fn law_request_document(
    method: Seq<char>,
    params: Seq<Seq<char>>,
    id: JsonView,
    key: Seq<char>,
)
    ensures
        ({
            let document = request_document(method, params, id);
            &&& document.member("method"@) == Some(JsonView::Text(method))
            &&& document.member("params"@) is Some
            &&& document.member("params"@)->0 is Array
            &&& document.member("params"@)->0->Array_0.len() == params.len()
            &&& forall|i: int|
                0 <= i < params.len() ==> #[trigger] document.member("params"@)->0->Array_0[i]
                    == JsonView::Text(params[i])
            &&& document.member("id"@) == Some(id)
            &&& key != "method"@ && key != "params"@ && key != "id"@ ==> document.member(
                key,
            ) is None
        }),
{
    reveal_strlit("method");
    reveal_strlit("params");
    reveal_strlit("id");
    assert("method"@[0] == 'm' && "params"@[0] == 'p' && "id"@[0] == 'i');
}

/// The identifier of a request is written as a text or as a number.
pub proof fn law_id_document(id: StreamIdView)
    ensures
        id is Str ==> id.document() == JsonView::Text(id->Str_0),
        id is Number ==> id.document() == JsonView::Integer(id->Number_0 as int),
{
}

/// A request is sent with the identifier that was asked for exactly where that
/// is a number, or a text of 32 hexadecimal digits where texts are valid. With
/// any other, and with none, it is sent with a fresh one: a number where only
/// numbers are valid, else a text.
pub proof fn law_valid_id_is_kept(
    id: Option<StreamIdView>,
    strictly_number: bool,
    fresh_text: Seq<char>,
    fresh_number: u32,
)
    ensures
        ({
            let sent = normalized_id(id, strictly_number, fresh_text, fresh_number);
            let fresh = if strictly_number {
                StreamIdView::Number(fresh_number)
            } else {
                StreamIdView::Str(fresh_text)
            };
            &&& id is None ==> sent == fresh
            &&& id is Some && id->0 is Number ==> sent == id->0
            &&& id is Some && id->0 is Str && strictly_number ==> sent == fresh
            &&& id is Some && id->0 is Str && !strictly_number && is_request_text(id->0->Str_0)
                ==> sent == id->0
            &&& id is Some && id->0 is Str && !is_request_text(id->0->Str_0) ==> sent == fresh
        }),
{
}

/// A valid text is one of 32 characters, each a digit or a letter from a to f,
/// in either case.
pub proof fn law_valid_text(text: Seq<char>, c: char)
    ensures
        is_request_text(text) <==> text.len() == 32 && (forall|i: int|
            0 <= i < text.len() ==> is_hex_digit(#[trigger] text[i])),
        is_hex_digit(c) <==> ('0' <= c && c <= '9') || ('a' <= c && c <= 'f') || ('A' <= c && c
            <= 'F'),
{
}

/// A text can stand in a header exactly where it holds no control character but
/// a tab.
pub proof fn law_header_text(text: Seq<char>)
    ensures
        is_header_text(text) <==> forall|i: int|
            0 <= i < text.len() ==> #[trigger] text[i] == '\t' || (text[i] as int >= 32
                && text[i] as int != 127),
{
}

} // verus!
