# mailviewer-kde, the verified part

The decisions of a KDE mail viewer's PGP support, written in Verus and proved
against their specifications:

- `src/signature.rs`: what gmime's status bits say of a signature, who signed,
  how the signatures of a message are gathered part by part, and what the
  window shows of them.
- `src/decrypt.rs`: where the encrypted block of a message is, what gpg's
  status lines say when it cannot decrypt, and what an attempt gave.
- `src/keys.rs`: the keyring of the application, the commands gpg is given
  against it, and the reading of gpg's `--with-colons` listings.
- `src/message.rs`: the words for how a message is protected, and the labels
  of its attachments.
- `src/paths.rs`: joining paths, and where translations are looked for.
- `src/text.rs`: lines, fields, words and numbers, cut as the standard library
  cuts them.

`app/` is the program around it: Qt and QML through cxx-qt, gmime walking the
message, gpg run as a process, and the files. `tests/` runs the library on
concrete values.
