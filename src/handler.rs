use crate::command::{Frame, FrameView};
use crate::protocol::{Command, Response};
use vstd::hash_map::StringHashMap;
use vstd::prelude::*;

verus! {

/// The store behind the server: values by key, and the known cluster members'
/// names by address.
pub struct Db {
    entries: StringHashMap<String>,
    servers: StringHashMap<String>,
}

impl Db {
    /// The stored values by key.
    pub closed spec fn entries(&self) -> Map<Seq<char>, Seq<char>> {
        self.entries@.map_values(|v: String| v@)
    }

    /// The registered servers' names by address.
    pub closed spec fn servers(&self) -> Map<Seq<char>, Seq<char>> {
        self.servers@.map_values(|v: String| v@)
    }

    pub fn new() -> (r: Db)
        ensures
            r.entries() == Map::<Seq<char>, Seq<char>>::empty(),
            r.servers() == Map::<Seq<char>, Seq<char>>::empty(),
    {
        let r = Db { entries: StringHashMap::new(), servers: StringHashMap::new() };
        assert(r.entries() =~= Map::<Seq<char>, Seq<char>>::empty());
        assert(r.servers() =~= Map::<Seq<char>, Seq<char>>::empty());
        r
    }

    /// The value stored under `key`, if any.
    pub fn get(&self, key: &str) -> (r: Option<String>)
        ensures
            self.entries().contains_key(key@) ==> (r matches Some(v) && v@ == self.entries()[key@]),
            !self.entries().contains_key(key@) ==> r is None,
    {
        match self.entries.get(key) {
            Some(v) => Some(v.clone()),
            None => None,
        }
    }

    /// Stores `value` under `key`, replacing any earlier value.
    pub fn set(&mut self, key: String, value: String)
        ensures
            final(self).entries() == old(self).entries().insert(key@, value@),
            final(self).servers() == old(self).servers(),
    {
        let ghost k = key@;
        let ghost v = value@;
        self.entries.insert(key, value);
        assert(self.entries() =~= old(self).entries().insert(k, v));
    }

    /// Registers the server at `address` under `name`.
    pub fn add_server(&mut self, address: String, name: String)
        ensures
            final(self).servers() == old(self).servers().insert(address@, name@),
            final(self).entries() == old(self).entries(),
    {
        let ghost a = address@;
        let ghost n = name@;
        self.servers.insert(address, name);
        assert(self.servers() =~= old(self).servers().insert(a, n));
    }
}

/// The message of the error that answers a read of a key that is not stored.
pub open spec fn not_found_text() -> Seq<char> {
    seq!['K', 'e', 'y', ' ', 'n', 'o', 't', ' ', 'f', 'o', 'u', 'n', 'd', '.']
}

/// The message of the error that answers a frame that is not a command.
pub open spec fn unsupported_text() -> Seq<char> {
    seq!['U', 'n', 's', 'u', 'p', 'p', 'o', 'r', 't', 'e', 'd', ' ', 'f', 'r', 'a', 'm', 'e', '.']
}

/// The frame that answers `f` when the store holds `m`.
pub open spec fn reply(m: Map<Seq<char>, Seq<char>>, f: FrameView) -> FrameView {
    match f {
        FrameView::Read(k) => if m.contains_key(k) {
            FrameView::Value(m[k])
        } else {
            FrameView::Error(not_found_text())
        },
        FrameView::Write(_, _) => FrameView::Success,
        _ => FrameView::Error(unsupported_text()),
    }
}

/// The values stored after `f` is handled, when the store held `m`.
pub open spec fn apply(m: Map<Seq<char>, Seq<char>>, f: FrameView) -> Map<Seq<char>, Seq<char>> {
    match f {
        FrameView::Write(k, v) => m.insert(k, v),
        _ => m,
    }
}

/// The values stored after the frames `fs` are handled in order, starting from `m`.
pub open spec fn apply_all(m: Map<Seq<char>, Seq<char>>, fs: Seq<FrameView>) -> Map<
    Seq<char>,
    Seq<char>,
>
    decreases fs.len(),
{
    if fs.len() == 0 {
        m
    } else {
        apply_all(apply(m, fs[0]), fs.drop_first())
    }
}

/// A write of `k` to `v` is answered with success, and a read of `k` that follows
/// it is answered with `v`.
pub proof fn lemma_write_then_read(m: Map<Seq<char>, Seq<char>>, k: Seq<char>, v: Seq<char>)
    ensures
        reply(m, FrameView::Write(k, v)) == FrameView::Success,
        reply(apply(m, FrameView::Write(k, v)), FrameView::Read(k)) == FrameView::Value(v),
{
}

/// On a fresh store, a read of a key that no frame handled before wrote is answered
/// with the error `Key not found.`, whatever else was written.
pub proof fn lemma_read_of_unwritten_key(fs: Seq<FrameView>, k: Seq<char>)
    requires
        forall|i: int| 0 <= i < fs.len() ==> !(#[trigger] fs[i] matches FrameView::Write(w, _) && w
            == k),
    ensures
        reply(apply_all(Map::empty(), fs), FrameView::Read(k)) == FrameView::Error(
            not_found_text(),
        ),
{
    lemma_unwritten_stays_absent(Map::empty(), fs, k);
}

proof fn lemma_unwritten_stays_absent(m: Map<Seq<char>, Seq<char>>, fs: Seq<FrameView>, k: Seq<char>)
    requires
        !m.contains_key(k),
        forall|i: int| 0 <= i < fs.len() ==> !(#[trigger] fs[i] matches FrameView::Write(w, _) && w
            == k),
    ensures
        !apply_all(m, fs).contains_key(k),
    decreases fs.len(),
{
    if fs.len() > 0 {
        let rest = fs.drop_first();
        assert(!(fs[0] matches FrameView::Write(w, _) && w == k));
        assert forall|i: int| 0 <= i < rest.len() implies !(#[trigger] rest[i] matches FrameView::Write(
            w,
            _,
        ) && w == k) by {
            assert(rest[i] == fs[i + 1]);
        }
        lemma_unwritten_stays_absent(apply(m, fs[0]), rest, k);
    }
}

/// After two writes of the same key, a read of it is answered with the second value.
pub proof fn lemma_overwrite(m: Map<Seq<char>, Seq<char>>, k: Seq<char>, v1: Seq<char>, v2: Seq<
    char,
>)
    ensures
        reply(
            apply(apply(m, FrameView::Write(k, v1)), FrameView::Write(k, v2)),
            FrameView::Read(k),
        ) == FrameView::Value(v2),
{
}

/// Runs a client command against the store.
pub fn execute_command(db: &mut Db, command: Command) -> (r: Response)
    ensures
        r@ == reply(old(db).entries(), command@),
        final(db).entries() == apply(old(db).entries(), command@),
        final(db).servers() == old(db).servers(),
{
    match command {
        Command::Read(k) => match db.get(k.as_str()) {
            Some(v) => Response::Value(v),
            None => {
                proof {
                    reveal_strlit("Key not found.");
                }
                let e = "Key not found.".to_owned();
                assert(e@ =~= not_found_text());
                Response::Error(e)
            },
        },
        Command::Write(k, v) => {
            db.set(k, v);
            Response::Success
        },
    }
}

/// Answers one frame that arrived on a client connection. Commands run against
/// the store; any other frame is answered with an error.
pub fn handle_frame(db: &mut Db, frame: Frame) -> (r: Frame)
    ensures
        r@ == reply(old(db).entries(), frame@),
        final(db).entries() == apply(old(db).entries(), frame@),
        final(db).servers() == old(db).servers(),
{
    let command = match frame {
        Frame::Read(k) => Command::Read(k),
        Frame::Write(k, v) => Command::Write(k, v),
        _ => {
            proof {
                reveal_strlit("Unsupported frame.");
            }
            let e = "Unsupported frame.".to_owned();
            assert(e@ =~= unsupported_text());
            return Frame::Error(e);
        },
    };
    execute_command(db, command).into_frame()
}

} // verus!
